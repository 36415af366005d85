//! State of the debug GUI and the lines of the debug text overlay.
//!
//! The overlay lists, below the frame rate, the running pipeline's
//! statistics under a `[label]` header, then the debug watches grouped by the
//! part of their name before the first `.` (`misc` when there is none), each
//! group under a `[group]` header.  Drawing the lines is left to the GUI
//! toolkit; this module decides what they say.

use vstd::prelude::*;
use crate::debug_watch::{WatchEntry, EntryView};
use crate::pipeline::{PipelineStats, string_views};
use crate::text::chars_of;

verus! {

broadcast use vstd::string::group_string_axioms;

/// The "Debug" window, open or closed.
pub struct DebugPanel {
    pub open: bool,
}

impl DebugPanel {
    /// The panel starts open.
    pub fn new() -> (p: Self)
        ensures
            p.open,
    {
        DebugPanel { open: true }
    }

    pub fn toggle(&mut self)
        ensures
            final(self).open == !old(self).open,
    {
        self.open = !self.open;
    }
}

/// The "Camera" window, open or closed.
pub struct CameraPanel {
    pub open: bool,
}

impl CameraPanel {
    /// The panel starts open.
    pub fn new() -> (p: Self)
        ensures
            p.open,
    {
        CameraPanel { open: true }
    }
}

/// One line of the debug text, with the text shown when hovering it.
pub struct DebugRow {
    pub text: String,
    pub tooltip: Option<String>,
}

/// Mathematical content of a debug line: its text and its tooltip.
pub type RowView = (Seq<char>, Option<Seq<char>>);

impl View for DebugRow {
    type V = RowView;

    open spec fn view(&self) -> RowView {
        (
            self.text@,
            match self.tooltip {
                Some(t) => Some(t@),
                None => None,
            },
        )
    }
}

impl DebugRow {
    /// A line without tooltip.
    pub fn new(text: String) -> (r: Self)
        ensures
            r@ == (text@, None::<Seq<char>>),
    {
        DebugRow { text, tooltip: None }
    }
}

/// Position of the first `.` in `s`, or `s.len()` when there is none.
pub open spec fn dot_index(s: Seq<char>) -> int
    decreases s.len(),
{
    if s.len() == 0 {
        0
    } else if s[0] == '.' {
        0
    } else {
        1 + dot_index(s.drop_first())
    }
}

/// The group of a watch name: what precedes the first `.`, or `misc`.
pub open spec fn watch_group(name: Seq<char>) -> Seq<char> {
    if dot_index(name) < name.len() {
        name.take(dot_index(name))
    } else {
        "misc"@
    }
}

/// The label of a watch name within its group: what follows the first `.`,
/// or the whole name.
pub open spec fn watch_label(name: Seq<char>) -> Seq<char> {
    if dot_index(name) < name.len() {
        name.skip(dot_index(name) + 1)
    } else {
        name
    }
}

/// A header line's text: `s` in square brackets.
pub open spec fn bracketed(s: Seq<char>) -> Seq<char> {
    "["@ + s + "]"@
}

/// The character of decimal digit `d`.
pub open spec fn digit_char(d: nat) -> char {
    if d == 0 {
        '0'
    } else if d == 1 {
        '1'
    } else if d == 2 {
        '2'
    } else if d == 3 {
        '3'
    } else if d == 4 {
        '4'
    } else if d == 5 {
        '5'
    } else if d == 6 {
        '6'
    } else if d == 7 {
        '7'
    } else if d == 8 {
        '8'
    } else {
        '9'
    }
}

/// Decimal notation of `n`, without leading zeros.
pub open spec fn decimal(n: nat) -> Seq<char>
    decreases n,
{
    if n < 10 {
        seq![digit_char(n)]
    } else {
        decimal(n / 10).push(digit_char(n % 10))
    }
}

/// Text of a watch's line: its label, then its value.
pub open spec fn watch_text(name: Seq<char>, e: EntryView) -> Seq<char> {
    watch_label(name) + ": "@ + e.0
}

/// Tooltip of a watch's line: where it was reported, and when last.
pub open spec fn watch_tooltip(e: EntryView) -> Seq<char> {
    e.1 + ":"@ + decimal(e.2 as nat) + "\nlast seen frame: "@ + decimal(e.3 as nat)
}

/// Names and entries of a watch listing.
pub open spec fn watch_views(s: Seq<(&'static str, WatchEntry)>) -> Seq<(Seq<char>, EntryView)> {
    s.map_values(|p: (&'static str, WatchEntry)| (p.0@, p.1@))
}

/// The lines listing the watches `ws` in their order: a group header before
/// the first watch and before each watch whose group differs from the one
/// before it, and one line per watch.
pub open spec fn watch_rows(ws: Seq<(Seq<char>, EntryView)>) -> Seq<RowView>
    decreases ws.len(),
{
    if ws.len() == 0 {
        seq![]
    } else {
        let prev = ws.drop_last();
        let name = ws.last().0;
        let header: Seq<RowView> = if prev.len() > 0 && watch_group(prev.last().0)
            == watch_group(name) {
            seq![]
        } else {
            seq![(bracketed(watch_group(name)), None)]
        };
        watch_rows(prev) + header + seq![
            (watch_text(name, ws.last().1), Some(watch_tooltip(ws.last().1))),
        ]
    }
}

/// The lines listing a pipeline's statistics: nothing when it has none, else
/// a header with its label and a line per statistic.
pub open spec fn pipeline_rows(label: Seq<char>, rows: Seq<Seq<char>>) -> Seq<RowView> {
    if rows.len() == 0 {
        seq![]
    } else {
        seq![(bracketed(label), None::<Seq<char>>)] + rows.map_values(
            |r: Seq<char>| (r, None::<Seq<char>>),
        )
    }
}

/// The debug text below the frame rate: nothing while closed, else the
/// pipeline's statistics and then the watches.
pub open spec fn spec_debug_rows(
    open: bool,
    label: Seq<char>,
    rows: Seq<Seq<char>>,
    ws: Seq<(Seq<char>, EntryView)>,
) -> Seq<RowView> {
    if open {
        pipeline_rows(label, rows) + watch_rows(ws)
    } else {
        seq![]
    }
}

/// Views of a list of debug lines.
pub open spec fn row_views(rows: Seq<DebugRow>) -> Seq<RowView> {
    rows.map_values(|r: DebugRow| r@)
}


/// The first `.` is where a scan that saw none before `i` stops.
proof fn lemma_dot_index_at(s: Seq<char>, i: int)
    requires
        0 <= i <= s.len(),
        forall|j: int| 0 <= j < i ==> s[j] != '.',
        i == s.len() || s[i] == '.',
    ensures
        dot_index(s) == i,
    decreases s.len(),
{
    if s.len() > 0 && i > 0 {
        assert forall|j: int| 0 <= j < i - 1 implies s.drop_first()[j] != '.' by {
            assert(s.drop_first()[j] == s[j + 1]);
        }
        lemma_dot_index_at(s.drop_first(), i - 1);
    }
}

/// Position of the first `.` in `v`, or its length.
fn find_dot(v: &Vec<char>) -> (i: usize)
    ensures
        i == dot_index(v@),
{
    let mut i: usize = 0;
    while i < v.len()
        invariant
            0 <= i <= v.len(),
            forall|j: int| 0 <= j < i ==> v@[j] != '.',
        decreases v.len() - i,
    {
        if v[i] == '.' {
            proof {
                lemma_dot_index_at(v@, i as int);
            }
            return i;
        }
        i = i + 1;
    }
    proof {
        lemma_dot_index_at(v@, i as int);
    }
    i
}

/// Splits a watch name into its group and its label.
pub fn split_watch_name(name: &str) -> (parts: (String, String))
    ensures
        parts.0@ == watch_group(name@),
        parts.1@ == watch_label(name@),
{
    let chars = chars_of(name);
    let i = find_dot(&chars);
    if i < chars.len() {
        let group = String::from_str(name.substring_char(0, i));
        let label = String::from_str(name.substring_char(i + 1, chars.len()));
        proof {
            assert(name@.subrange(0, i as int) =~= name@.take(i as int));
            assert(name@.subrange(i + 1, name@.len() as int) =~= name@.skip(i + 1));
        }
        (group, label)
    } else {
        (String::from_str("misc"), String::from_str(name))
    }
}

/// The text of decimal digit `d`.
fn digit_str(d: u64) -> (s: &'static str)
    requires
        d < 10,
    ensures
        s@ == seq![digit_char(d as nat)],
{
    proof {
        reveal_strlit("0");
        reveal_strlit("1");
        reveal_strlit("2");
        reveal_strlit("3");
        reveal_strlit("4");
        reveal_strlit("5");
        reveal_strlit("6");
        reveal_strlit("7");
        reveal_strlit("8");
        reveal_strlit("9");
    }
    if d == 0 {
        "0"
    } else if d == 1 {
        "1"
    } else if d == 2 {
        "2"
    } else if d == 3 {
        "3"
    } else if d == 4 {
        "4"
    } else if d == 5 {
        "5"
    } else if d == 6 {
        "6"
    } else if d == 7 {
        "7"
    } else if d == 8 {
        "8"
    } else {
        "9"
    }
}

/// Appends the decimal notation of `n` to `s`.
fn append_decimal(s: &mut String, n: u64)
    ensures
        final(s)@ == old(s)@ + decimal(n as nat),
    decreases n,
{
    if n >= 10 {
        append_decimal(s, n / 10);
    }
    s.append(digit_str(n % 10));
    proof {
        if n >= 10 {
            assert(decimal(n as nat) == decimal((n / 10) as nat).push(digit_char((n % 10) as nat)));
        }
        assert(s@ =~= old(s)@ + decimal(n as nat));
    }
}

/// The decimal notation of `n`.
pub fn decimal_string(n: u64) -> (s: String)
    ensures
        s@ == decimal(n as nat),
{
    let mut s = String::new();
    append_decimal(&mut s, n);
    assert(s@ =~= decimal(n as nat));
    s
}


/// The debug text overlay, shown or hidden.
pub struct DebugText {
    pub open: bool,
}

impl DebugText {
    /// The overlay starts hidden: only the frame rate shows.
    pub fn new() -> (t: Self)
        ensures
            !t.open,
    {
        DebugText { open: false }
    }

    pub fn toggle(&mut self)
        ensures
            final(self).open == !old(self).open,
    {
        self.open = !self.open;
    }

    /// The lines below the frame rate, for the pipeline statistics `pipeline`
    /// and the watch listing `watches`.
    pub fn rows(&self, pipeline: &PipelineStats, watches: &Vec<(&'static str, WatchEntry)>) -> (out:
        Vec<DebugRow>)
        ensures
            row_views(out@) == spec_debug_rows(
                self.open,
                pipeline.label@,
                string_views(pipeline.rows@),
                watch_views(watches@),
            ),
    {
        let mut out: Vec<DebugRow> = Vec::new();
        if !self.open {
            assert(row_views(out@) =~= seq![]);
            return out;
        }
        append_pipeline_rows(&mut out, pipeline);
        append_watch_rows(&mut out, watches);
        out
    }
}

/// Appends the lines of a pipeline's statistics to `out`.
fn append_pipeline_rows(out: &mut Vec<DebugRow>, pipeline: &PipelineStats)
    ensures
        row_views(final(out)@) == row_views(old(out)@) + pipeline_rows(
            pipeline.label@,
            string_views(pipeline.rows@),
        ),
{
    let ghost start = row_views(out@);
    let n = pipeline.rows.len();
    if n == 0 {
        assert(row_views(out@) =~= start + pipeline_rows(pipeline.label@, string_views(pipeline.rows@)));
        return;
    }
    let mut header = String::from_str("[");
    header.append(pipeline.label);
    header.append("]");
    out.push(DebugRow::new(header));
    proof {
        assert(row_views(out@) =~= start + seq![(bracketed(pipeline.label@), None::<Seq<char>>)]);
    }
    for i in 0..n
        invariant
            n == pipeline.rows.len(),
            row_views(out@) == start + seq![(bracketed(pipeline.label@), None::<Seq<char>>)]
                + string_views(pipeline.rows@).take(i as int).map_values(
                |r: Seq<char>| (r, None::<Seq<char>>),
            ),
    {
        let ghost before = out@;
        out.push(DebugRow::new(pipeline.rows[i].clone()));
        proof {
            let rs = string_views(pipeline.rows@);
            assert(rs.take(i + 1) =~= rs.take(i as int).push(pipeline.rows@[i as int]@));
            assert(row_views(out@) =~= row_views(before).push((rs[i as int], None::<Seq<char>>)));
            assert(rs.take(i + 1).map_values(|r: Seq<char>| (r, None::<Seq<char>>)) =~= rs.take(
                i as int,
            ).map_values(|r: Seq<char>| (r, None::<Seq<char>>)).push((rs[i as int], None::<Seq<char>>)));
            assert(row_views(out@) =~= start + seq![(bracketed(pipeline.label@), None::<Seq<char>>)]
                + rs.take(i + 1).map_values(|r: Seq<char>| (r, None::<Seq<char>>)));
        }
    }
    proof {
        let rs = string_views(pipeline.rows@);
        assert(rs.take(n as int) =~= rs);
    }
}

/// Appends the lines of the watch listing `watches` to `out`.
fn append_watch_rows(out: &mut Vec<DebugRow>, watches: &Vec<(&'static str, WatchEntry)>)
    ensures
        row_views(final(out)@) == row_views(old(out)@) + watch_rows(watch_views(watches@)),
{
    let ghost start = row_views(out@);
    let ghost ws = watch_views(watches@);
    let n = watches.len();
    let mut current: Option<String> = None;
    proof {
        assert(ws.take(0) =~= seq![]);
        assert(row_views(out@) =~= start + watch_rows(ws.take(0)));
    }
    for i in 0..n
        invariant
            n == watches.len(),
            ws == watch_views(watches@),
            row_views(out@) == start + watch_rows(ws.take(i as int)),
            i == 0 ==> current is None,
            i > 0 ==> current is Some && current->0@ == watch_group(ws[i - 1].0),
    {
        let (name, entry) = &watches[i];
        let (group, label) = split_watch_name(name);
        let ghost before = row_views(out@);
        let same = match &current {
            Some(g) => *g == group,
            None => false,
        };
        if !same {
            let mut header = String::from_str("[");
            header.append(group.as_str());
            header.append("]");
            out.push(DebugRow::new(header));
        }
        let mut text = label;
        text.append(": ");
        text.append(entry.value.as_str());
        let mut tooltip = String::from_str(entry.file);
        tooltip.append(":");
        append_decimal(&mut tooltip, entry.line as u64);
        tooltip.append("\nlast seen frame: ");
        append_decimal(&mut tooltip, entry.last_seen_frame);
        out.push(DebugRow { text, tooltip: Some(tooltip) });
        proof {
            let w = ws.take(i + 1);
            assert(w.drop_last() =~= ws.take(i as int));
            assert(w.last() == ws[i as int]);
            assert(ws[i as int] == (name@, entry@));
            let header: Seq<RowView> = if !same {
                seq![(bracketed(watch_group(name@)), None)]
            } else {
                seq![]
            };
            assert(row_views(out@) =~= before + header + seq![
                (watch_text(name@, entry@), Some(watch_tooltip(entry@))),
            ]);
        }
        current = Some(group);
    }
    proof {
        assert(ws.take(n as int) =~= ws);
    }
}

/// Law: every watch of a listing appears in the debug text, as a line with
/// its label and value and with its origin as tooltip.
pub proof fn lemma_every_watch_listed(ws: Seq<(Seq<char>, EntryView)>, i: int)
    requires
        0 <= i < ws.len(),
    ensures
        watch_rows(ws).contains((watch_text(ws[i].0, ws[i].1), Some(watch_tooltip(ws[i].1)))),
    decreases ws.len(),
{
    let row: RowView = (watch_text(ws[i].0, ws[i].1), Some(watch_tooltip(ws[i].1)));
    let rows = watch_rows(ws);
    if i == ws.len() - 1 {
        assert(rows[rows.len() - 1] == row);
    } else {
        let prev = ws.drop_last();
        lemma_every_watch_listed(prev, i);
        let pr = watch_rows(prev);
        let k = choose|k: int| 0 <= k < pr.len() && pr[k] == row;
        assert(prev[i] == ws[i]);
        assert(rows[k] == pr[k]);
    }
}

/// Law: while the debug text is open it starts with the pipeline's
/// statistics, whatever the watches: when the pipeline lists lines, a
/// `[label]` header comes first, then each line in order without tooltip,
/// and the watch lines follow; with no watches nothing follows.  While
/// closed, nothing is listed.
pub proof fn lemma_pipeline_rows_come_first(
    label: Seq<char>,
    rows: Seq<Seq<char>>,
    ws: Seq<(Seq<char>, EntryView)>,
)
    ensures
        spec_debug_rows(false, label, rows, ws).len() == 0,
        watch_rows(Seq::empty()).len() == 0,
        rows.len() > 0 ==> {
            let out = spec_debug_rows(true, label, rows, ws);
            &&& out.len() == rows.len() + 1 + watch_rows(ws).len()
            &&& out[0] == ("["@ + label + "]"@, None::<Seq<char>>)
            &&& forall|i: int| 0 <= i < rows.len() ==> #[trigger] out[i + 1] == (rows[i], None::<Seq<char>>)
            &&& forall|i: int|
                0 <= i < watch_rows(ws).len() ==> out[rows.len() + 1 + i] == #[trigger] watch_rows(ws)[i]
        },
        rows.len() == 0 ==> spec_debug_rows(true, label, rows, ws) == watch_rows(ws),
        ws.len() == 0 && rows.len() > 0 ==> spec_debug_rows(true, label, rows, ws).len() == rows.len() + 1,
{
    assert(watch_rows(Seq::<(Seq<char>, EntryView)>::empty()) =~= Seq::<RowView>::empty());
    if rows.len() > 0 {
        let out = spec_debug_rows(true, label, rows, ws);
        let p = pipeline_rows(label, rows);
        assert(out == p + watch_rows(ws));
        assert forall|i: int| 0 <= i < rows.len() implies #[trigger] out[i + 1] == (
            rows[i],
            None::<Seq<char>>,
        ) by {
            assert(out[i + 1] == p[i + 1]);
        }
    } else {
        assert(pipeline_rows(label, rows) =~= Seq::<RowView>::empty());
        assert(spec_debug_rows(true, label, rows, ws) =~= watch_rows(ws));
    }
}

} // verus!
