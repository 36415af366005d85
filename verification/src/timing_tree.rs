//! Layout of the GPU timing tree in the profiler window.
//!
//! GPU measurements are labelled with slash-separated paths such as
//! `GPU Frame Time/Simulation/Density`; each segment is a node of the tree
//! and every prefix of a label is a node too.  Siblings are shown in pipeline
//! order (the frame, the simulation and its passes, rendering), other labels
//! after them in name order.  The tree is produced as an outline: its nodes
//! in display order, a parent before its children.  The timings themselves
//! are filled in by the caller.

use vstd::prelude::*;
use crate::text::{
    chars_of,
    compare_names,
    name_lt,
    NameOrder,
    lemma_name_lt_irreflexive,
    lemma_name_lt_transitive,
    lemma_name_lt_total,
};

verus! {

broadcast use vstd::string::group_string_axioms;

// ---------------------------------------------------------------------------
// Segments and paths
// ---------------------------------------------------------------------------

/// The segments of `s` between its `/` separators, empty ones included
/// (`""` has one empty segment).
pub open spec fn segments(s: Seq<char>) -> Seq<Seq<char>>
    decreases s.len(),
{
    if s.len() == 0 {
        seq![seq![]]
    } else {
        let rest = segments(s.drop_last());
        if s.last() == '/' {
            rest.push(seq![])
        } else {
            rest.update(rest.len() - 1, rest.last().push(s.last()))
        }
    }
}

/// The label of a path: its segments joined by `/`, where a segment that
/// follows only empty ones is not preceded by a separator.
pub open spec fn joined(p: Seq<Seq<char>>) -> Seq<char>
    decreases p.len(),
{
    if p.len() == 0 {
        seq![]
    } else {
        let before = joined(p.drop_last());
        if before.len() == 0 {
            p.last()
        } else {
            before + seq!['/'] + p.last()
        }
    }
}

/// Display rank of a segment among its siblings.
pub open spec fn label_rank(s: Seq<char>) -> int {
    if s == "GPU Frame Time"@ {
        0
    } else if s == "Simulation"@ {
        1
    } else if s == "Grid key upload"@ {
        2
    } else if s == "Radix sort"@ {
        3
    } else if s == "Grid start indices"@ {
        4
    } else if s == "Density"@ {
        5
    } else if s == "Pressure and viscosity"@ {
        6
    } else if s == "Collision and integration"@ {
        7
    } else if s == "Particle render"@ {
        8
    } else {
        9
    }
}

/// Sibling order: by rank, then by name.
pub open spec fn segment_lt(a: Seq<char>, b: Seq<char>) -> bool {
    label_rank(a) < label_rank(b) || (label_rank(a) == label_rank(b) && name_lt(a, b))
}

/// Display order of tree nodes given by their paths: a node comes before
/// its descendants, and the subtrees of siblings follow the sibling order.
pub open spec fn path_lt(p: Seq<Seq<char>>, q: Seq<Seq<char>>) -> bool
    decreases p.len(),
{
    if p.len() == 0 {
        q.len() > 0
    } else if q.len() == 0 {
        false
    } else if p[0] != q[0] {
        segment_lt(p[0], q[0])
    } else {
        path_lt(p.drop_first(), q.drop_first())
    }
}

/// `p` is a node of the tree of `labels`: a non-empty prefix of the
/// segments of one of them.
pub open spec fn is_node(labels: Seq<Seq<char>>, p: Seq<Seq<char>>) -> bool {
    exists|l: int, k: int|
        0 <= l < labels.len() && 1 <= k <= segments(labels[l]).len() && p == #[trigger] segments(
            labels[l],
        ).take(k)
}

proof fn lemma_segments_nonempty(s: Seq<char>)
    ensures
        segments(s).len() >= 1,
    decreases s.len(),
{
    if s.len() > 0 {
        lemma_segments_nonempty(s.drop_last());
    }
}

// ---------------------------------------------------------------------------
// Orders
// ---------------------------------------------------------------------------

proof fn lemma_segment_lt_irreflexive(a: Seq<char>)
    ensures
        !segment_lt(a, a),
{
    lemma_name_lt_irreflexive(a);
}

proof fn lemma_segment_lt_transitive(a: Seq<char>, b: Seq<char>, c: Seq<char>)
    requires
        segment_lt(a, b),
        segment_lt(b, c),
    ensures
        segment_lt(a, c),
{
    if label_rank(a) == label_rank(b) && label_rank(b) == label_rank(c) {
        lemma_name_lt_transitive(a, b, c);
    }
}

proof fn lemma_segment_lt_total(a: Seq<char>, b: Seq<char>)
    requires
        a != b,
    ensures
        segment_lt(a, b) || segment_lt(b, a),
{
    lemma_name_lt_total(a, b);
}

pub proof fn lemma_path_lt_irreflexive(p: Seq<Seq<char>>)
    ensures
        !path_lt(p, p),
    decreases p.len(),
{
    if p.len() > 0 {
        lemma_path_lt_irreflexive(p.drop_first());
    }
}

pub proof fn lemma_path_lt_transitive(p: Seq<Seq<char>>, q: Seq<Seq<char>>, r: Seq<Seq<char>>)
    requires
        path_lt(p, q),
        path_lt(q, r),
    ensures
        path_lt(p, r),
    decreases p.len(),
{
    if p.len() > 0 && q.len() > 0 && r.len() > 0 {
        if p[0] == q[0] && q[0] == r[0] {
            lemma_path_lt_transitive(p.drop_first(), q.drop_first(), r.drop_first());
        } else if p[0] != q[0] && q[0] != r[0] {
            lemma_segment_lt_transitive(p[0], q[0], r[0]);
            if p[0] == r[0] {
                lemma_segment_lt_irreflexive(p[0]);
            }
        }
    }
}

pub proof fn lemma_path_lt_total(p: Seq<Seq<char>>, q: Seq<Seq<char>>)
    requires
        p != q,
    ensures
        path_lt(p, q) || path_lt(q, p),
    decreases p.len(),
{
    if p.len() > 0 && q.len() > 0 && p[0] == q[0] {
        if p.drop_first() == q.drop_first() {
            assert(p =~= seq![p[0]] + p.drop_first());
            assert(q =~= seq![q[0]] + q.drop_first());
        } else {
            lemma_path_lt_total(p.drop_first(), q.drop_first());
        }
    } else if p.len() == 0 && q.len() == 0 {
        assert(p =~= q);
    } else if p.len() > 0 && q.len() > 0 {
        lemma_segment_lt_total(p[0], q[0]);
    }
}

proof fn lemma_path_lt_skip(p: Seq<Seq<char>>, q: Seq<Seq<char>>, i: int)
    requires
        0 <= i < p.len(),
        i < q.len(),
        p[i] == q[i],
    ensures
        path_lt(p.skip(i), q.skip(i)) == path_lt(p.skip(i + 1), q.skip(i + 1)),
{
    assert(p.skip(i).drop_first() =~= p.skip(i + 1));
    assert(q.skip(i).drop_first() =~= q.skip(i + 1));
}

/// Law: a node comes before its descendants, and two siblings come in
/// sibling order.
pub proof fn lemma_outline_order(parent: Seq<Seq<char>>, a: Seq<char>, b: Seq<char>, rest: Seq<
    Seq<char>,
>)
    ensures
        path_lt(parent, parent.push(a) + rest),
        segment_lt(a, b) ==> path_lt(parent.push(a) + rest, parent.push(b)),
    decreases parent.len(),
{
    if parent.len() > 0 {
        lemma_outline_order(parent.drop_first(), a, b, rest);
        assert((parent.push(a) + rest).drop_first() =~= parent.drop_first().push(a) + rest);
        assert(parent.push(b).drop_first() =~= parent.drop_first().push(b));
        assert((parent.push(a) + rest)[0] == parent[0]);
        assert(parent.push(b)[0] == parent[0]);
    } else {
        assert((parent.push(a) + rest)[0] == a);
        assert(parent.push(b)[0] == b);
        if segment_lt(a, b) {
            lemma_segment_lt_irreflexive(a);
        }
    }
}

/// Law: splitting a label at its separators and joining the segments gives
/// the label back, unless it starts with a separator.
pub proof fn lemma_join_segments(s: Seq<char>)
    requires
        s.len() == 0 || s[0] != '/',
    ensures
        joined(segments(s)) == s,
    decreases s.len(),
{
    if s.len() > 0 {
        let t = s.drop_last();
        if t.len() > 0 {
            assert(t[0] == s[0]);
        }
        lemma_join_segments(t);
        lemma_segments_nonempty(t);
        let rest = segments(t);
        assert(joined(rest) == t);
        if s.last() == '/' {
            assert(t.len() > 0);
            let p = rest.push(seq![]);
            assert(p.drop_last() =~= rest);
            assert(p.last() == Seq::<char>::empty());
            assert(joined(p) == joined(rest) + seq!['/'] + Seq::<char>::empty());
            assert(joined(p) =~= s);
        } else {
            let p = rest.update(rest.len() - 1, rest.last().push(s.last()));
            assert(s =~= t.push(s.last()));
            assert(segments(s) == p);
            assert(p.drop_last() =~= rest.drop_last());
            assert(p.last() == rest.last().push(s.last()));
            let b = joined(rest.drop_last());
            if b.len() == 0 {
                assert(joined(rest) == rest.last());
                assert(joined(p) == p.last());
            } else {
                assert(joined(rest) == b + seq!['/'] + rest.last());
                assert(joined(p) == b + seq!['/'] + p.last());
            }
            assert(joined(p) =~= s);
        }
    } else {
        let x = seq![Seq::<char>::empty()];
        assert(joined(Seq::<Seq<char>>::empty()) == Seq::<char>::empty());
        assert(x.drop_last() =~= Seq::<Seq<char>>::empty());
        assert(x.last() == Seq::<char>::empty());
        assert(joined(x) == x.last());
        assert(segments(s) == x);
        assert(s =~= Seq::<char>::empty());
    }
}

// ---------------------------------------------------------------------------
// Executable parts
// ---------------------------------------------------------------------------

/// The display rank of a segment.
pub fn label_rank_of(s: &str) -> (r: usize)
    ensures
        r == label_rank(s@),
{
    if let NameOrder::Equal = compare_names(s, "GPU Frame Time") {
        0
    } else if let NameOrder::Equal = compare_names(s, "Simulation") {
        1
    } else if let NameOrder::Equal = compare_names(s, "Grid key upload") {
        2
    } else if let NameOrder::Equal = compare_names(s, "Radix sort") {
        3
    } else if let NameOrder::Equal = compare_names(s, "Grid start indices") {
        4
    } else if let NameOrder::Equal = compare_names(s, "Density") {
        5
    } else if let NameOrder::Equal = compare_names(s, "Pressure and viscosity") {
        6
    } else if let NameOrder::Equal = compare_names(s, "Collision and integration") {
        7
    } else if let NameOrder::Equal = compare_names(s, "Particle render") {
        8
    } else {
        9
    }
}

/// Compares two sibling segments.
pub fn compare_segments(a: &str, b: &str) -> (r: NameOrder)
    ensures
        r == NameOrder::Less <==> segment_lt(a@, b@),
        r == NameOrder::Equal <==> a@ == b@,
        r == NameOrder::Greater <==> segment_lt(b@, a@),
{
    let ra = label_rank_of(a);
    let rb = label_rank_of(b);
    proof {
        lemma_name_lt_irreflexive(a@);
    }
    if ra < rb {
        NameOrder::Less
    } else if rb < ra {
        NameOrder::Greater
    } else {
        compare_names(a, b)
    }
}

/// Views of a list of strings.
pub open spec fn string_seq(v: Seq<String>) -> Seq<Seq<char>> {
    v.map_values(|s: String| s@)
}

/// Compares two paths in display order.
pub fn compare_paths(a: &Vec<String>, b: &Vec<String>) -> (r: NameOrder)
    ensures
        r == NameOrder::Less <==> path_lt(string_seq(a@), string_seq(b@)),
        r == NameOrder::Equal <==> string_seq(a@) == string_seq(b@),
        r == NameOrder::Greater <==> path_lt(string_seq(b@), string_seq(a@)),
{
    let ghost x = string_seq(a@);
    let ghost y = string_seq(b@);
    let mut i: usize = 0;
    proof {
        assert(x.skip(0) =~= x);
        assert(y.skip(0) =~= y);
    }
    while i < a.len() && i < b.len()
        invariant
            x == string_seq(a@),
            y == string_seq(b@),
            0 <= i <= a.len(),
            i <= b.len(),
            x.subrange(0, i as int) == y.subrange(0, i as int),
            path_lt(x, y) == path_lt(x.skip(i as int), y.skip(i as int)),
            path_lt(y, x) == path_lt(y.skip(i as int), x.skip(i as int)),
        decreases a.len() - i,
    {
        let c = compare_segments(a[i].as_str(), b[i].as_str());
        match c {
            NameOrder::Equal => {},
            _ => {
                proof {
                    assert(x.skip(i as int)[0] == x[i as int]);
                    assert(y.skip(i as int)[0] == y[i as int]);
                    assert(x != y) by {
                        assert(x[i as int] != y[i as int]);
                    }
                }
                return c;
            },
        }
        proof {
            lemma_path_lt_skip(x, y, i as int);
            lemma_path_lt_skip(y, x, i as int);
            assert(x.subrange(0, i + 1) =~= x.subrange(0, i as int).push(x[i as int]));
            assert(y.subrange(0, i + 1) =~= y.subrange(0, i as int).push(y[i as int]));
        }
        i = i + 1;
    }
    proof {
        assert(x.skip(i as int).len() == 0 || y.skip(i as int).len() == 0);
    }
    if a.len() == b.len() {
        proof {
            assert(x =~= x.subrange(0, i as int));
            assert(y =~= y.subrange(0, i as int));
            lemma_path_lt_irreflexive(x);
        }
        NameOrder::Equal
    } else if a.len() < b.len() {
        proof {
            assert(x != y) by {
                assert(x.len() != y.len());
            }
        }
        NameOrder::Less
    } else {
        proof {
            assert(x != y) by {
                assert(x.len() != y.len());
            }
        }
        NameOrder::Greater
    }
}

/// The segments of `label`.
pub fn split_segments(label: &str) -> (segs: Vec<String>)
    ensures
        string_seq(segs@) == segments(label@),
{
    let chars = chars_of(label);
    let n = chars.len();
    let mut segs: Vec<String> = Vec::new();
    let mut start: usize = 0;
    proof {
        assert(label@.take(0) =~= Seq::<char>::empty());
        assert(label@.subrange(0, 0) =~= Seq::<char>::empty());
    }
    for i in 0..n
        invariant
            n == chars.len(),
            chars@ == label@,
            start <= i,
            string_seq(segs@).push(label@.subrange(start as int, i as int)) == segments(
                label@.take(i as int),
            ),
    {
        let ghost before = label@.take(i as int);
        proof {
            assert(label@.take(i + 1).drop_last() =~= before);
            assert(label@.take(i + 1).last() == chars@[i as int]);
            lemma_segments_nonempty(before);
        }
        if chars[i] == '/' {
            let seg = String::from_str(label.substring_char(start, i));
            segs.push(seg);
            start = i + 1;
            proof {
                assert(label@.subrange(start as int, i + 1) =~= Seq::<char>::empty());
                assert(string_seq(segs@) =~= segments(before));
            }
        } else {
            proof {
                assert(label@.subrange(start as int, i + 1) =~= label@.subrange(
                    start as int,
                    i as int,
                ).push(chars@[i as int]));
                let old_segs = string_seq(segs@);
                assert(segments(label@.take(i + 1)) =~= segments(before).update(
                    segments(before).len() - 1,
                    segments(before).last().push(chars@[i as int]),
                ));
                assert(old_segs.push(label@.subrange(start as int, i + 1)) =~= segments(
                    label@.take(i + 1),
                ));
            }
        }
    }
    let last = String::from_str(label.substring_char(start, n));
    segs.push(last);
    proof {
        assert(label@.take(n as int) =~= label@);
        assert(string_seq(segs@) =~= segments(label@));
    }
    segs
}

/// The label of a path.
pub fn join_path(path: &Vec<String>) -> (s: String)
    ensures
        s@ == joined(string_seq(path@)),
{
    let mut s = String::new();
    let ghost p = string_seq(path@);
    proof {
        assert(p.take(0) =~= Seq::<Seq<char>>::empty());
    }
    for i in 0..path.len()
        invariant
            p == string_seq(path@),
            s@ == joined(p.take(i as int)),
    {
        proof {
            assert(p.take(i + 1).drop_last() =~= p.take(i as int));
            assert(p.take(i + 1).last() == path@[i as int]@);
        }
        if s.as_str().unicode_len() != 0 {
            s.append("/");
            proof {
                reveal_strlit("/");
            }
        }
        s.append(path[i].as_str());
    }
    proof {
        assert(p.take(path.len() as int) =~= p);
    }
    s
}

/// A node of the timing tree: its path from the root, and its label.
pub struct OutlineEntry {
    pub path: Vec<String>,
    pub full_label: String,
}

/// The path of an outline entry.
pub open spec fn entry_path(e: OutlineEntry) -> Seq<Seq<char>> {
    string_seq(e.path@)
}

/// Entries of `s` are in strictly increasing display order.
pub open spec fn outline_sorted(s: Seq<OutlineEntry>) -> bool {
    forall|i: int, j: int|
        0 <= i < j < s.len() ==> path_lt(entry_path(#[trigger] s[i]), entry_path(#[trigger] s[j]))
}

/// Some entry of `s` has path `p`.
pub open spec fn has_path(s: Seq<OutlineEntry>, p: Seq<Seq<char>>) -> bool {
    exists|i: int| 0 <= i < s.len() && entry_path(#[trigger] s[i]) == p
}

/// Every entry of `s` is labelled by its path, and its path is not empty.
pub open spec fn entries_labelled(s: Seq<OutlineEntry>) -> bool {
    forall|i: int|
        0 <= i < s.len() ==> (#[trigger] s[i]).full_label@ == joined(entry_path(s[i]))
            && entry_path(s[i]).len() >= 1
}

/// Adds a node to a sorted outline, unless it is there already.
fn insert_node(outline: &mut Vec<OutlineEntry>, path: Vec<String>)
    requires
        outline_sorted(old(outline)@),
        entries_labelled(old(outline)@),
        path@.len() >= 1,
    ensures
        outline_sorted(final(outline)@),
        entries_labelled(final(outline)@),
        forall|q: Seq<Seq<char>>|
            has_path(final(outline)@, q) <==> (has_path(old(outline)@, q) || q == string_seq(
                path@,
            )),
{
    let ghost key = string_seq(path@);
    let ghost old_s = outline@;
    let n = outline.len();
    let mut i: usize = 0;
    let mut found = false;
    while i < n
        invariant_except_break
            n == outline.len(),
            old_s == outline@,
            key == string_seq(path@),
            0 <= i <= n,
            !found,
            forall|k: int| 0 <= k < i ==> path_lt(entry_path(#[trigger] old_s[k]), key),
        ensures
            n == outline.len(),
            old_s == outline@,
            0 <= i <= n,
            forall|k: int| 0 <= k < i ==> path_lt(entry_path(#[trigger] old_s[k]), key),
            found ==> i < n && entry_path(old_s[i as int]) == key,
            !found && i < n ==> path_lt(key, entry_path(old_s[i as int])),
        decreases n - i,
    {
        let c = compare_paths(&outline[i].path, &path);
        proof {
            assert(entry_path(old_s[i as int]) == string_seq(outline@[i as int].path@));
        }
        match c {
            NameOrder::Less => {
                i = i + 1;
            },
            NameOrder::Equal => {
                found = true;
                break ;
            },
            NameOrder::Greater => {
                break ;
            },
        }
    }
    if found {
        proof {
            assert forall|q: Seq<Seq<char>>| has_path(outline@, q) <==> (has_path(old_s, q) || q
                == key) by {
                if q == key {
                    assert(entry_path(old_s[i as int]) == key);
                }
            }
        }
        return ;
    }
    let full_label = join_path(&path);
    outline.insert(i, OutlineEntry { path, full_label });
    proof {
        let s = outline@;
        assert(entry_path(s[i as int]) == key);
        assert forall|a: int, b: int| 0 <= a < b < s.len() implies path_lt(
            entry_path(#[trigger] s[a]),
            entry_path(#[trigger] s[b]),
        ) by {
            if b < i {
            } else if a < i && b == i {
                assert(path_lt(entry_path(old_s[a]), key));
            } else if a < i {
                assert(s[b] == old_s[b - 1]);
                if b - 1 > i {
                    assert(path_lt(entry_path(old_s[i as int]), entry_path(old_s[b - 1])));
                    lemma_path_lt_transitive(
                        key,
                        entry_path(old_s[i as int]),
                        entry_path(old_s[b - 1]),
                    );
                }
                lemma_path_lt_transitive(entry_path(old_s[a]), key, entry_path(old_s[b - 1]));
            } else if a == i {
                assert(s[b] == old_s[b - 1]);
                if b - 1 > i {
                    assert(path_lt(entry_path(old_s[i as int]), entry_path(old_s[b - 1])));
                    lemma_path_lt_transitive(
                        key,
                        entry_path(old_s[i as int]),
                        entry_path(old_s[b - 1]),
                    );
                }
            } else {
                assert(s[a] == old_s[a - 1]);
                assert(s[b] == old_s[b - 1]);
            }
        }
        assert forall|k: int| 0 <= k < s.len() implies (#[trigger] s[k]).full_label@ == joined(
            entry_path(s[k]),
        ) && entry_path(s[k]).len() >= 1 by {
            if k < i {
                assert(s[k] == old_s[k]);
            } else if k > i {
                assert(s[k] == old_s[k - 1]);
            }
        }
        assert forall|q: Seq<Seq<char>>| has_path(s, q) <==> (has_path(old_s, q) || q == key) by {
            if has_path(s, q) {
                let k = choose|k: int| 0 <= k < s.len() && entry_path(#[trigger] s[k]) == q;
                if k < i {
                    assert(s[k] == old_s[k]);
                } else if k > i {
                    assert(s[k] == old_s[k - 1]);
                }
            }
            if has_path(old_s, q) {
                let k = choose|k: int| 0 <= k < old_s.len() && entry_path(#[trigger] old_s[k]) == q;
                if k < i {
                    assert(s[k] == old_s[k]);
                } else {
                    assert(s[k + 1] == old_s[k]);
                }
            }
        }
    }
}

/// The first `k` segments of `segs`.
fn path_prefix(segs: &Vec<String>, k: usize) -> (p: Vec<String>)
    requires
        k <= segs.len(),
    ensures
        string_seq(p@) == string_seq(segs@).take(k as int),
{
    let mut p: Vec<String> = Vec::new();
    for j in 0..k
        invariant
            k <= segs.len(),
            string_seq(p@) == string_seq(segs@).take(j as int),
    {
        let ghost before = p@;
        p.push(segs[j].clone());
        proof {
            assert(p@ == before.push(segs@[j as int]));
            assert(string_seq(p@) =~= string_seq(before).push(segs@[j as int]@));
            assert(string_seq(segs@).take(j + 1) =~= string_seq(segs@).take(j as int).push(
                segs@[j as int]@,
            ));
        }
    }
    p
}

/// The nodes of the timing tree of `labels`, in display order, each with
/// its label.
pub fn timing_outline(labels: &Vec<String>) -> (outline: Vec<OutlineEntry>)
    ensures
        outline_sorted(outline@),
        entries_labelled(outline@),
        forall|p: Seq<Seq<char>>|
            has_path(outline@, p) <==> is_node(string_seq(labels@), p),
{
    let ghost ls = string_seq(labels@);
    let mut outline: Vec<OutlineEntry> = Vec::new();
    for l in 0..labels.len()
        invariant
            ls == string_seq(labels@),
            outline_sorted(outline@),
            entries_labelled(outline@),
            forall|p: Seq<Seq<char>>|
                has_path(outline@, p) <==> is_node(ls.take(l as int), p),
    {
        let segs = split_segments(labels[l].as_str());
        let ghost sg = segments(ls[l as int]);
        assert(ls[l as int] == labels@[l as int]@);
        for k in 0..segs.len()
            invariant
                ls == string_seq(labels@),
                string_seq(segs@) == sg,
                sg == segments(ls[l as int]),
                0 <= l < labels.len(),
                outline_sorted(outline@),
                entries_labelled(outline@),
                forall|p: Seq<Seq<char>>|
                    has_path(outline@, p) <==> (is_node(ls.take(l as int), p) || exists|j: int|
                        1 <= j <= k && p == #[trigger] sg.take(j)),
        {
            let path = path_prefix(&segs, k + 1);
            let ghost added = string_seq(path@);
            assert(path@.len() == added.len());
            insert_node(&mut outline, path);
            proof {
                assert forall|p: Seq<Seq<char>>|
                    has_path(outline@, p) <==> (is_node(ls.take(l as int), p) || exists|j: int|
                        1 <= j <= k + 1 && p == #[trigger] sg.take(j)) by {
                    if p == added {
                        assert(p == sg.take(k + 1));
                    }
                    if exists|j: int| 1 <= j <= k + 1 && p == #[trigger] sg.take(j) {
                        let j = choose|j: int| 1 <= j <= k + 1 && p == #[trigger] sg.take(j);
                        if j <= k {
                        } else {
                            assert(p == added);
                        }
                    }
                }
            }
        }
        proof {
            assert forall|p: Seq<Seq<char>>|
                has_path(outline@, p) <==> is_node(ls.take(l + 1), p) by {
                let lt = ls.take(l + 1);
                if is_node(ls.take(l as int), p) {
                    let (a, b) = choose|a: int, b: int|
                        0 <= a < l && 1 <= b <= segments(ls.take(l as int)[a]).len() && p
                            == #[trigger] segments(ls.take(l as int)[a]).take(b);
                    assert(lt[a] == ls.take(l as int)[a]);
                }
                if exists|j: int| 1 <= j <= segs.len() && p == #[trigger] sg.take(j) {
                    let j = choose|j: int| 1 <= j <= segs.len() && p == #[trigger] sg.take(j);
                    assert(lt[l as int] == ls[l as int]);
                    assert(p == segments(lt[l as int]).take(j));
                }
                if is_node(lt, p) {
                    let (a, b) = choose|a: int, b: int|
                        0 <= a < l + 1 && 1 <= b <= segments(lt[a]).len() && p
                            == #[trigger] segments(lt[a]).take(b);
                    if a < l {
                        assert(ls.take(l as int)[a] == lt[a]);
                        assert(is_node(ls.take(l as int), p));
                    } else {
                        assert(lt[a] == ls[l as int]);
                    }
                }
            }
        }
    }
    proof {
        assert(ls.take(labels.len() as int) =~= ls);
    }
    outline
}

/// The position of the parent of each entry of `outline`: the first entry
/// whose path is the entry's path without its last segment, or `None` for a
/// root or when no entry has that path.
pub fn outline_parents(outline: &Vec<OutlineEntry>) -> (parents: Vec<Option<usize>>)
    ensures
        parents.len() == outline.len(),
        forall|i: int|
            0 <= i < outline.len() ==> match #[trigger] parents@[i] {
                Some(j) => {
                    &&& entry_path(outline@[i]).len() >= 2
                    &&& j < outline.len()
                    &&& entry_path(outline@[j as int]) == entry_path(outline@[i]).drop_last()
                    &&& forall|k: int|
                        0 <= k < j ==> entry_path(#[trigger] outline@[k]) != entry_path(
                            outline@[i],
                        ).drop_last()
                },
                None => entry_path(outline@[i]).len() < 2 || !has_path(
                    outline@,
                    entry_path(outline@[i]).drop_last(),
                ),
            },
{
    let n = outline.len();
    let mut parents: Vec<Option<usize>> = Vec::new();
    for i in 0..n
        invariant
            n == outline.len(),
            parents.len() == i,
            forall|u: int|
                0 <= u < i ==> match #[trigger] parents@[u] {
                    Some(j) => {
                        &&& entry_path(outline@[u]).len() >= 2
                        &&& j < outline.len()
                        &&& entry_path(outline@[j as int]) == entry_path(outline@[u]).drop_last()
                        &&& forall|k: int|
                            0 <= k < j ==> entry_path(#[trigger] outline@[k]) != entry_path(
                                outline@[u],
                            ).drop_last()
                    },
                    None => entry_path(outline@[u]).len() < 2 || !has_path(
                        outline@,
                        entry_path(outline@[u]).drop_last(),
                    ),
                },
    {
        let len = outline[i].path.len();
        let ghost me = entry_path(outline@[i as int]);
        let mut found: Option<usize> = None;
        if len >= 2 {
            let parent = path_prefix(&outline[i].path, len - 1);
            proof {
                assert(string_seq(parent@) =~= me.drop_last());
            }
            let mut j: usize = 0;
            while j < n
                invariant_except_break
                    n == outline.len(),
                    0 <= j <= n,
                    string_seq(parent@) == me.drop_last(),
                    found is None,
                    forall|k: int| 0 <= k < j ==> entry_path(#[trigger] outline@[k]) != me.drop_last(),
                ensures
                    string_seq(parent@) == me.drop_last(),
                    found matches Some(jj) ==> jj < n && entry_path(outline@[jj as int])
                        == me.drop_last() && forall|k: int|
                        0 <= k < jj ==> entry_path(#[trigger] outline@[k]) != me.drop_last(),
                    found is None ==> forall|k: int|
                        0 <= k < n ==> entry_path(#[trigger] outline@[k]) != me.drop_last(),
                decreases n - j,
            {
                if let NameOrder::Equal = compare_paths(&outline[j].path, &parent) {
                    found = Some(j);
                    break;
                }
                j = j + 1;
            }
        }
        proof {
            if found is None && len >= 2 {
                if has_path(outline@, me.drop_last()) {
                    let k = choose|k: int| 0 <= k < outline@.len() && entry_path(#[trigger] outline@[k])
                        == me.drop_last();
                    assert(entry_path(outline@[k]) != me.drop_last());
                }
            }
        }
        parents.push(found);
    }
    parents
}

/// Law: in a sorted outline, a node's parent comes before it.
pub proof fn lemma_parent_comes_first(outline: Seq<OutlineEntry>, i: int, j: int)
    requires
        outline_sorted(outline),
        0 <= i < outline.len(),
        0 <= j < outline.len(),
        entry_path(outline[i]).len() >= 1,
        entry_path(outline[j]) == entry_path(outline[i]).drop_last(),
    ensures
        j < i,
{
    let child = entry_path(outline[i]);
    let parent = child.drop_last();
    lemma_outline_order(parent, child.last(), child.last(), Seq::empty());
    assert(parent.push(child.last()) + Seq::<Seq<char>>::empty() =~= child);
    if j > i {
        lemma_path_lt_transitive(parent, child, parent);
        lemma_path_lt_irreflexive(parent);
    } else if j == i {
        lemma_path_lt_irreflexive(parent);
    }
}

/// Law: the nodes of a timing tree are closed under taking the parent: the
/// parent of every node that is not a root is a node too.
pub proof fn lemma_nodes_have_parents(labels: Seq<Seq<char>>, p: Seq<Seq<char>>)
    requires
        is_node(labels, p),
        p.len() >= 2,
    ensures
        is_node(labels, p.drop_last()),
{
    let (l, k) = choose|l: int, k: int|
        0 <= l < labels.len() && 1 <= k <= segments(labels[l]).len() && p == #[trigger] segments(
            labels[l],
        ).take(k);
    assert(p.drop_last() =~= segments(labels[l]).take(k - 1));
}

} // verus!
