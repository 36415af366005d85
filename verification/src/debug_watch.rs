//! Named debug values ("watches") shown in the debug text overlay.
//!
//! Code reports a value under a name each frame; the table remembers the frame
//! in which each name was last reported.  At the start of a frame, names not
//! reported in that frame are dropped, unless the simulation is paused.  A
//! snapshot lists the watches ordered by name.
//!
//! The table is an explicit value: the program keeps one of them for the
//! whole run and hands it to these functions.

use vstd::prelude::*;
use crate::text::{compare_names, name_lt, NameOrder, lemma_name_lt_irreflexive, lemma_name_lt_transitive, lemma_name_lt_total};

verus! {

/// The last value reported for a watch, and where and when it was reported.
#[derive(Clone)]
pub struct WatchEntry {
    pub value: String,
    pub file: &'static str,
    pub line: u32,
    pub last_seen_frame: u64,
}

/// Mathematical content of a watch entry: value, file, line, last frame seen.
pub type EntryView = (Seq<char>, Seq<char>, u32, u64);

impl View for WatchEntry {
    type V = EntryView;

    open spec fn view(&self) -> EntryView {
        (self.value@, self.file@, self.line, self.last_seen_frame)
    }
}

/// Names of `s` are strictly increasing.
pub open spec fn sorted_names(s: Seq<(&'static str, WatchEntry)>) -> bool {
    forall|i: int, j: int| 0 <= i < j < s.len() ==> name_lt(#[trigger] s[i].0@, #[trigger] s[j].0@)
}

/// Some slot of `s` is named `nm`.
pub open spec fn has_name(s: Seq<(&'static str, WatchEntry)>, nm: Seq<char>) -> bool {
    exists|i: int| 0 <= i < s.len() && (#[trigger] s[i]).0@ == nm
}

/// The watches of `s`, by name.
pub open spec fn entries_map(s: Seq<(&'static str, WatchEntry)>) -> Map<Seq<char>, EntryView> {
    Map::new(
        |nm: Seq<char>| has_name(s, nm),
        |nm: Seq<char>| s[name_index(s, nm)].1@,
    )
}

/// A slot of `s` named `nm`, when there is one.
pub open spec fn name_index(s: Seq<(&'static str, WatchEntry)>, nm: Seq<char>) -> int {
    choose|i: int| 0 <= i < s.len() && (#[trigger] s[i]).0@ == nm
}

/// `pair` is a copy of a slot of `old_map` before position `i` that is kept
/// at frame `frame`.
pub open spec fn kept_from(
    old_map: Seq<(&'static str, WatchEntry)>,
    i: int,
    pair: (&'static str, WatchEntry),
    frame: u64,
    paused: bool,
) -> bool {
    exists|k: int|
        0 <= k < i && (#[trigger] old_map[k]).0@ == pair.0@ && old_map[k].1@ == pair.1@ && (
        old_map[k].1.last_seen_frame == frame || paused)
}

/// The watches of `m` that a frame start at `frame` keeps: those last
/// reported in `frame`, or all of them while paused.
pub open spec fn retained(m: Map<Seq<char>, EntryView>, frame: u64, paused: bool) -> Map<
    Seq<char>,
    EntryView,
> {
    Map::new(
        |nm: Seq<char>| m.contains_key(nm) && (m[nm].3 == frame || paused),
        |nm: Seq<char>| m[nm],
    )
}

/// The watch table.
pub struct Watch {
    map: Vec<(&'static str, WatchEntry)>,
    frame: u64,
}

impl View for Watch {
    /// The watches by name, and the current frame.
    type V = (Map<Seq<char>, EntryView>, u64);

    closed spec fn view(&self) -> (Map<Seq<char>, EntryView>, u64) {
        (entries_map(self.map@), self.frame)
    }
}

proof fn lemma_sorted_unique(s: Seq<(&'static str, WatchEntry)>, i: int, j: int)
    requires
        sorted_names(s),
        0 <= i < s.len(),
        0 <= j < s.len(),
        i != j,
    ensures
        s[i].0@ != s[j].0@,
{
    lemma_name_lt_irreflexive(s[i].0@);
    if i < j {
        assert(name_lt(s[i].0@, s[j].0@));
    } else {
        assert(name_lt(s[j].0@, s[i].0@));
    }
}

proof fn lemma_entries_map_at(s: Seq<(&'static str, WatchEntry)>, i: int)
    requires
        sorted_names(s),
        0 <= i < s.len(),
    ensures
        entries_map(s).contains_key(s[i].0@),
        entries_map(s)[s[i].0@] == s[i].1@,
{
    let nm = s[i].0@;
    assert(has_name(s, nm));
    let k = name_index(s, nm);
    if k != i {
        lemma_sorted_unique(s, k, i);
    }
}

/// Two sorted tables with the same names and views, slot by slot, hold the same watches.
proof fn lemma_entries_map_same(s: Seq<(&'static str, WatchEntry)>, t: Seq<(&'static str, WatchEntry)>)
    requires
        sorted_names(s),
        s.len() == t.len(),
        forall|i: int| 0 <= i < s.len() ==> (#[trigger] t[i]).0@ == s[i].0@ && t[i].1@ == s[i].1@,
    ensures
        sorted_names(t),
        entries_map(t) == entries_map(s),
{
    assert forall|i: int, j: int| 0 <= i < j < t.len() implies name_lt(
        #[trigger] t[i].0@,
        #[trigger] t[j].0@,
    ) by {
        assert(t[i].0@ == s[i].0@);
        assert(t[j].0@ == s[j].0@);
    }
    assert forall|nm: Seq<char>| has_name(t, nm) <==> has_name(s, nm) by {
        if has_name(t, nm) {
            let i = choose|i: int| 0 <= i < t.len() && (#[trigger] t[i]).0@ == nm;
            assert(s[i].0@ == nm);
        }
        if has_name(s, nm) {
            let i = choose|i: int| 0 <= i < s.len() && (#[trigger] s[i]).0@ == nm;
            assert(t[i].0@ == nm);
        }
    }
    assert forall|nm: Seq<char>| #[trigger] entries_map(t).contains_key(nm) implies entries_map(
        t,
    )[nm] == entries_map(s)[nm] by {
        let i = choose|i: int| 0 <= i < t.len() && (#[trigger] t[i]).0@ == nm;
        lemma_entries_map_at(t, i);
        lemma_entries_map_at(s, i);
    }
    assert(entries_map(t) =~= entries_map(s));
}

impl Watch {
    #[verifier::type_invariant]
    spec fn names_sorted(self) -> bool {
        sorted_names(self.map@)
    }

    /// An empty table at frame 0.
    pub fn new() -> (w: Self)
        ensures
            w@.0 == Map::<Seq<char>, EntryView>::empty(),
            w@.1 == 0,
    {
        let w = Watch { map: Vec::new(), frame: 0 };
        assert(entries_map(w.map@) =~= Map::<Seq<char>, EntryView>::empty());
        w
    }
}

/// Records `value` under `name`, reported at `file:line` in the current frame.
pub fn set(watch: &mut Watch, name: &'static str, value: String, file: &'static str, line: u32)
    ensures
        final(watch)@.0 == old(watch)@.0.insert(name@, (value@, file@, line, old(watch)@.1)),
        final(watch)@.1 == old(watch)@.1,
{
    proof {
        use_type_invariant(&*watch);
    }
    let mut taken = Watch { map: Vec::new(), frame: 0 };
    std::mem::swap(watch, &mut taken);
    proof {
        use_type_invariant(&taken);
    }
    let Watch { mut map, frame } = taken;
    let entry = WatchEntry { value, file, line, last_seen_frame: frame };
    let ghost ev = entry@;
    let ghost old_map = map@;
    let n = map.len();
    let mut i: usize = 0;
    let mut found = false;
    while i < n
        invariant_except_break
            n == map.len(),
            old_map == map@,
            sorted_names(old_map),
            0 <= i <= n,
            !found,
            forall|k: int| 0 <= k < i ==> name_lt(#[trigger] old_map[k].0@, name@),
        ensures
            n == map.len(),
            old_map == map@,
            0 <= i <= n,
            forall|k: int| 0 <= k < i ==> name_lt(#[trigger] old_map[k].0@, name@),
            found ==> i < n && old_map[i as int].0@ == name@,
            !found && i < n ==> name_lt(name@, old_map[i as int].0@),
        decreases n - i,
    {
        match compare_names(map[i].0, name) {
            NameOrder::Less => {
                i = i + 1;
            },
            NameOrder::Equal => {
                found = true;
                break ;
            },
            NameOrder::Greater => {
                break ;
            },
        }
    }
    let ghost key = name@;
    if found {
        map.set(i, (name, entry));
        proof {
            let s = map@;
            assert forall|a: int, b: int| 0 <= a < b < s.len() implies name_lt(
                #[trigger] s[a].0@,
                #[trigger] s[b].0@,
            ) by {
                assert(old_map[a].0@ == s[a].0@);
                assert(old_map[b].0@ == s[b].0@);
            }
            assert forall|nm: Seq<char>| has_name(s, nm) <==> has_name(old_map, nm) by {
                if has_name(s, nm) {
                    let k = choose|k: int| 0 <= k < s.len() && (#[trigger] s[k]).0@ == nm;
                    assert(old_map[k].0@ == nm);
                }
                if has_name(old_map, nm) {
                    let k = choose|k: int| 0 <= k < old_map.len() && (#[trigger] old_map[k]).0@
                        == nm;
                    assert(s[k].0@ == nm);
                }
            }
            assert forall|nm: Seq<char>| #[trigger] entries_map(s).contains_key(nm) implies entries_map(
                s,
            )[nm] == entries_map(old_map).insert(key, ev)[nm] by {
                let k = choose|k: int| 0 <= k < s.len() && (#[trigger] s[k]).0@ == nm;
                lemma_entries_map_at(s, k);
                if k != i {
                    lemma_entries_map_at(old_map, k);
                    lemma_sorted_unique(old_map, k, i as int);
                }
            }
            assert(entries_map(s) =~= entries_map(old_map).insert(key, ev));
        }
    } else {
        map.insert(i, (name, entry));
        proof {
            let s = map@;
            assert forall|a: int, b: int| 0 <= a < b < s.len() implies name_lt(
                #[trigger] s[a].0@,
                #[trigger] s[b].0@,
            ) by {
                if b < i {
                } else if a < i && b == i {
                    assert(name_lt(old_map[a].0@, key));
                } else if a < i {
                    assert(s[b] == old_map[b - 1]);
                    if b - 1 > i {
                        assert(name_lt(old_map[i as int].0@, old_map[b - 1].0@));
                        lemma_name_lt_transitive(key, old_map[i as int].0@, old_map[b - 1].0@);
                    }
                    lemma_name_lt_transitive(old_map[a].0@, key, old_map[b - 1].0@);
                } else if a == i {
                    assert(s[b] == old_map[b - 1]);
                    if b - 1 > i {
                        assert(name_lt(old_map[i as int].0@, old_map[b - 1].0@));
                        lemma_name_lt_transitive(key, old_map[i as int].0@, old_map[b - 1].0@);
                    }
                } else {
                    assert(s[a] == old_map[a - 1]);
                    assert(s[b] == old_map[b - 1]);
                }
            }
            assert forall|nm: Seq<char>| has_name(s, nm) <==> (has_name(old_map, nm) || nm
                == key) by {
                if has_name(s, nm) {
                    let k = choose|k: int| 0 <= k < s.len() && (#[trigger] s[k]).0@ == nm;
                    if k < i {
                        assert(old_map[k].0@ == nm);
                    } else if k > i {
                        assert(old_map[k - 1].0@ == nm);
                    }
                }
                if has_name(old_map, nm) {
                    let k = choose|k: int| 0 <= k < old_map.len() && (#[trigger] old_map[k]).0@
                        == nm;
                    if k < i {
                        assert(s[k].0@ == nm);
                    } else {
                        assert(s[k + 1].0@ == nm);
                    }
                }
                if nm == key {
                    assert(s[i as int].0@ == nm);
                }
            }
            assert forall|nm: Seq<char>| #[trigger] entries_map(s).contains_key(nm) implies entries_map(
                s,
            )[nm] == entries_map(old_map).insert(key, ev)[nm] by {
                let k = choose|k: int| 0 <= k < s.len() && (#[trigger] s[k]).0@ == nm;
                lemma_entries_map_at(s, k);
                if k < i {
                    lemma_entries_map_at(old_map, k);
                    lemma_sorted_unique(s, k, i as int);
                } else if k > i {
                    lemma_entries_map_at(old_map, k - 1);
                    lemma_sorted_unique(s, k, i as int);
                }
            }
            assert(entries_map(s) =~= entries_map(old_map).insert(key, ev));
        }
    }
    *watch = Watch { map, frame };
}

/// The watches, ordered by name.
pub fn snapshot(watch: &Watch) -> (res: Vec<(&'static str, WatchEntry)>)
    ensures
        sorted_names(res@),
        entries_map(res@) == watch@.0,
{
    proof {
        use_type_invariant(watch);
    }
    let n = watch.map.len();
    let mut res: Vec<(&'static str, WatchEntry)> = Vec::with_capacity(n);
    for i in 0..n
        invariant
            n == watch.map.len(),
            res.len() == i,
            forall|k: int|
                0 <= k < i ==> (#[trigger] res@[k]).0@ == watch.map@[k].0@ && res@[k].1@
                    == watch.map@[k].1@,
    {
        let (name, entry) = &watch.map[i];
        let copy = WatchEntry {
            value: entry.value.clone(),
            file: entry.file,
            line: entry.line,
            last_seen_frame: entry.last_seen_frame,
        };
        res.push((*name, copy));
    }
    proof {
        lemma_entries_map_same(watch.map@, res@);
    }
    res
}

/// Starts frame `frame`: watches not reported in it are dropped, unless paused.
pub fn begin_frame(watch: &mut Watch, frame: u64, paused: bool)
    ensures
        final(watch)@.1 == frame,
        final(watch)@.0 == retained(old(watch)@.0, frame, paused),
{
    proof {
        use_type_invariant(&*watch);
    }
    let ghost old_map = watch.map@;
    let n = watch.map.len();
    let mut kept: Vec<(&'static str, WatchEntry)> = Vec::new();
    let mut i: usize = 0;
    while i < n
        invariant
            n == watch.map.len(),
            old_map == watch.map@,
            sorted_names(old_map),
            0 <= i <= n,
            sorted_names(kept@),
            forall|t: int|
                0 <= t < kept.len() ==> kept_from(old_map, i as int, #[trigger] kept@[t], frame, paused),
            forall|k: int|
                0 <= k < i && ((#[trigger] old_map[k]).1.last_seen_frame == frame || paused)
                    ==> has_name(kept@, old_map[k].0@),
        decreases n - i,
    {
        let keep = watch.map[i].1.last_seen_frame == frame || paused;
        if keep {
            let (name, entry) = &watch.map[i];
            let copy = WatchEntry {
                value: entry.value.clone(),
                file: entry.file,
                line: entry.line,
                last_seen_frame: entry.last_seen_frame,
            };
            let ghost before = kept@;
            kept.push((*name, copy));
            proof {
                let s = kept@;
                assert forall|a: int, b: int| 0 <= a < b < s.len() implies name_lt(
                    #[trigger] s[a].0@,
                    #[trigger] s[b].0@,
                ) by {
                    if b == s.len() - 1 {
                        assert(kept_from(old_map, i as int, before[a], frame, paused));
                        let k = choose|k: int|
                            0 <= k < i && (#[trigger] old_map[k]).0@ == before[a].0@
                                && old_map[k].1@ == before[a].1@ && (
                            old_map[k].1.last_seen_frame == frame || paused);
                        assert(s[a] == before[a]);
                        assert(name_lt(old_map[k].0@, old_map[i as int].0@));
                    } else {
                        assert(s[a] == before[a]);
                        assert(s[b] == before[b]);
                    }
                }
                assert forall|t: int| 0 <= t < s.len() implies kept_from(
                    old_map,
                    i + 1,
                    #[trigger] s[t],
                    frame,
                    paused,
                ) by {
                    if t < before.len() {
                        assert(s[t] == before[t]);
                        assert(kept_from(old_map, i as int, before[t], frame, paused));
                    } else {
                        assert(s[t].0@ == old_map[i as int].0@);
                        assert(s[t].1@ == old_map[i as int].1@);
                        assert(old_map[i as int].1.last_seen_frame == frame || paused);
                    }
                }
                assert forall|k: int|
                    0 <= k < i + 1 && ((#[trigger] old_map[k]).1.last_seen_frame == frame || paused)
                        implies has_name(s, old_map[k].0@) by {
                    if k < i {
                        assert(has_name(before, old_map[k].0@));
                        let t = choose|t: int| 0 <= t < before.len() && (#[trigger] before[t]).0@
                            == old_map[k].0@;
                        assert(s[t] == before[t]);
                    } else {
                        assert(s[s.len() - 1].0@ == old_map[k].0@);
                    }
                }
            }
        }
        i = i + 1;
    }
    let ghost expected = Map::new(
        |nm: Seq<char>|
            entries_map(old_map).contains_key(nm) && (entries_map(old_map)[nm].3 == frame
                || paused),
        |nm: Seq<char>| entries_map(old_map)[nm],
    );
    proof {
        let s = kept@;
        assert forall|nm: Seq<char>| #[trigger] has_name(s, nm) <==> expected.contains_key(nm) by {
            if has_name(s, nm) {
                let t = choose|t: int| 0 <= t < s.len() && (#[trigger] s[t]).0@ == nm;
                assert(kept_from(old_map, i as int, s[t], frame, paused));
                let k = choose|k: int|
                    0 <= k < i && (#[trigger] old_map[k]).0@ == s[t].0@ && old_map[k].1@ == s[t].1@
                        && (old_map[k].1.last_seen_frame == frame || paused);
                lemma_entries_map_at(old_map, k);
            }
            if expected.contains_key(nm) {
                let k = choose|k: int| 0 <= k < old_map.len() && (#[trigger] old_map[k]).0@ == nm;
                lemma_entries_map_at(old_map, k);
                assert(old_map[k].1.last_seen_frame == frame || paused);
            }
        }
        assert forall|nm: Seq<char>| #[trigger] entries_map(s).contains_key(nm) implies entries_map(
            s,
        )[nm] == expected[nm] by {
            let t = choose|t: int| 0 <= t < s.len() && (#[trigger] s[t]).0@ == nm;
            lemma_entries_map_at(s, t);
            assert(kept_from(old_map, i as int, s[t], frame, paused));
            let k = choose|k: int|
                0 <= k < i && (#[trigger] old_map[k]).0@ == s[t].0@ && old_map[k].1@ == s[t].1@
                    && (old_map[k].1.last_seen_frame == frame || paused);
            lemma_entries_map_at(old_map, k);
        }
        assert(entries_map(s) =~= expected);
    }
    *watch = Watch { map: kept, frame };
}

/// Drops every watch; the frame is unchanged.
pub fn clear(watch: &mut Watch)
    ensures
        final(watch)@.0 == Map::<Seq<char>, EntryView>::empty(),
        final(watch)@.1 == old(watch)@.1,
{
    let frame = watch.frame;
    *watch = Watch { map: Vec::new(), frame };
    assert(entries_map(watch.map@) =~= Map::<Seq<char>, EntryView>::empty());
}

/// Law: while paused, starting a frame keeps every watch.
pub proof fn lemma_paused_keeps_every_watch(m: Map<Seq<char>, EntryView>, frame: u64)
    ensures
        retained(m, frame, true) == m,
{
    assert(retained(m, frame, true) =~= m);
}

/// Law: a watch reported in a frame survives the start of that frame, with
/// the value it was given, paused or not.
pub proof fn lemma_reported_watch_survives(
    m: Map<Seq<char>, EntryView>,
    name: Seq<char>,
    entry: EntryView,
    paused: bool,
)
    ensures
        retained(m.insert(name, entry), entry.3, paused).contains_key(name),
        retained(m.insert(name, entry), entry.3, paused)[name] == entry,
{
}

/// Law: starting the same frame twice keeps what starting it once keeps.
pub proof fn lemma_begin_frame_idempotent(m: Map<Seq<char>, EntryView>, frame: u64, paused: bool)
    ensures
        retained(retained(m, frame, paused), frame, paused) == retained(m, frame, paused),
{
    assert(retained(retained(m, frame, paused), frame, paused) =~= retained(m, frame, paused));
}

/// Law: once running, a frame start keeps only watches reported in that
/// frame, and drops none of them.
pub proof fn lemma_running_keeps_exactly_current(m: Map<Seq<char>, EntryView>, frame: u64, name: Seq<char>)
    ensures
        retained(m, frame, false).contains_key(name) <==> (m.contains_key(name) && m[name].3
            == frame),
        retained(m, frame, false).contains_key(name) ==> retained(m, frame, false)[name]
            == m[name],
{
}

/// Dropping the first slot of a sorted listing drops its name from the watches.
proof fn lemma_entries_map_drop_first(s: Seq<(&'static str, WatchEntry)>)
    requires
        sorted_names(s),
        s.len() > 0,
    ensures
        sorted_names(s.drop_first()),
        entries_map(s.drop_first()) == entries_map(s).remove(s[0].0@),
{
    let r = s.drop_first();
    let a = s[0].0@;
    assert forall|i: int, j: int| 0 <= i < j < r.len() implies name_lt(
        #[trigger] r[i].0@,
        #[trigger] r[j].0@,
    ) by {
        assert(r[i] == s[i + 1]);
        assert(r[j] == s[j + 1]);
    }
    assert forall|nm: Seq<char>| has_name(r, nm) <==> (has_name(s, nm) && nm != a) by {
        if has_name(r, nm) {
            let i = choose|i: int| 0 <= i < r.len() && (#[trigger] r[i]).0@ == nm;
            assert(s[i + 1].0@ == nm);
            lemma_sorted_unique(s, 0, i + 1);
        }
        if has_name(s, nm) && nm != a {
            let i = choose|i: int| 0 <= i < s.len() && (#[trigger] s[i]).0@ == nm;
            assert(i > 0);
            assert(r[i - 1].0@ == nm);
        }
    }
    assert forall|nm: Seq<char>| #[trigger] entries_map(r).contains_key(nm) implies entries_map(
        r,
    )[nm] == entries_map(s)[nm] by {
        let i = choose|i: int| 0 <= i < r.len() && (#[trigger] r[i]).0@ == nm;
        lemma_entries_map_at(r, i);
        assert(r[i] == s[i + 1]);
        lemma_entries_map_at(s, i + 1);
    }
    assert(entries_map(r) =~= entries_map(s).remove(a));
}

/// Law: two listings sorted by name that hold the same watches are the same
/// list, slot by slot; so two snapshots of an unchanged table agree.
pub proof fn lemma_sorted_listings_agree(
    s: Seq<(&'static str, WatchEntry)>,
    t: Seq<(&'static str, WatchEntry)>,
)
    requires
        sorted_names(s),
        sorted_names(t),
        entries_map(s) == entries_map(t),
    ensures
        s.len() == t.len(),
        forall|i: int| 0 <= i < s.len() ==> (#[trigger] s[i]).0@ == t[i].0@ && s[i].1@ == t[i].1@,
    decreases s.len(),
{
    if s.len() == 0 {
        if t.len() > 0 {
            lemma_entries_map_at(t, 0);
            assert(has_name(s, t[0].0@));
        }
    } else if t.len() == 0 {
        lemma_entries_map_at(s, 0);
        assert(has_name(t, s[0].0@));
    } else {
        let a = s[0].0@;
        let b = t[0].0@;
        lemma_entries_map_at(s, 0);
        lemma_entries_map_at(t, 0);
        assert(has_name(t, a));
        assert(has_name(s, b));
        let j = choose|j: int| 0 <= j < t.len() && (#[trigger] t[j]).0@ == a;
        let k = choose|k: int| 0 <= k < s.len() && (#[trigger] s[k]).0@ == b;
        if j > 0 && k > 0 {
            assert(name_lt(t[0].0@, t[j].0@));
            assert(name_lt(s[0].0@, s[k].0@));
            lemma_name_lt_transitive(a, b, a);
            lemma_name_lt_irreflexive(a);
        }
        assert(a == b);
        lemma_entries_map_drop_first(s);
        lemma_entries_map_drop_first(t);
        lemma_sorted_listings_agree(s.drop_first(), t.drop_first());
        assert forall|i: int| 0 <= i < s.len() implies (#[trigger] s[i]).0@ == t[i].0@ && s[i].1@
            == t[i].1@ by {
            if i > 0 {
                assert(s[i] == s.drop_first()[i - 1]);
                assert(t[i] == t.drop_first()[i - 1]);
            }
        }
    }
}

} // verus!
