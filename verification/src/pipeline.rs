use vstd::prelude::*;

verus! {

/// Identifies which simulation/render pipeline a scene runs.
#[derive(Debug, Copy, Clone, PartialEq, Eq, Structural)]
pub enum PipelineId {
    CpuSph,
}

/// Human-readable label of a pipeline, as shown in the GUI.
pub open spec fn spec_pipeline_label(id: PipelineId) -> Seq<char> {
    match id {
        PipelineId::CpuSph => "CPU SPH"@,
    }
}

/// Stable identifier of a pipeline, as written to configuration files.
pub open spec fn spec_pipeline_key(id: PipelineId) -> Seq<char> {
    match id {
        PipelineId::CpuSph => "cpu_sph"@,
    }
}

impl PipelineId {
    pub fn label(self) -> (s: &'static str)
        ensures
            s@ == spec_pipeline_label(self),
    {
        match self {
            PipelineId::CpuSph => "CPU SPH",
        }
    }

    pub fn as_str(self) -> (s: &'static str)
        ensures
            s@ == spec_pipeline_key(self),
    {
        match self {
            PipelineId::CpuSph => "cpu_sph",
        }
    }
}

/// A pipeline's entries in the debug text: its label and one line per
/// statistic.
pub struct PipelineStats {
    pub label: &'static str,
    pub rows: Vec<String>,
}

/// Statistics of the running scene, for the debug text.
pub struct SceneStats {
    pub pipeline: PipelineStats,
}

/// Views of a list of strings.
pub open spec fn string_views(rows: Seq<String>) -> Seq<Seq<char>> {
    rows.map_values(|r: String| r@)
}

/// Statistics that list themselves as lines of debug text.
pub trait DebugStats {
    /// The lines these statistics list, one per statistic.
    spec fn debug_rows(&self) -> Seq<Seq<char>>;

    /// Appends the lines of `debug_rows` to `rows`.
    fn append_debug_text_rows(&self, rows: &mut Vec<String>)
        ensures
            string_views(final(rows)@) == string_views(old(rows)@) + self.debug_rows(),
    ;
}

/// The line of a statistic: its name, then its value.
pub open spec fn stat_line(name: Seq<char>, value: Seq<char>) -> Seq<char> {
    name + ": "@ + value
}

/// Named statistics, each value already written as text.  A simulation
/// reports its statistics in this form, in the order they are shown.
pub struct StatList {
    pub stats: Vec<(&'static str, String)>,
}

impl DebugStats for StatList {
    open spec fn debug_rows(&self) -> Seq<Seq<char>> {
        self.stats@.map_values(|p: (&'static str, String)| stat_line(p.0@, p.1@))
    }

    fn append_debug_text_rows(&self, rows: &mut Vec<String>) {
        let ghost start = string_views(rows@);
        let n = self.stats.len();
        proof {
            assert(self.debug_rows().take(0) =~= Seq::<Seq<char>>::empty());
            assert(string_views(rows@) =~= start + self.debug_rows().take(0));
        }
        for i in 0..n
            invariant
                n == self.stats.len(),
                string_views(rows@) == start + self.debug_rows().take(i as int),
        {
            let (name, value) = &self.stats[i];
            let mut line = String::from_str(name);
            line.append(": ");
            line.append(value.as_str());
            let ghost before = rows@;
            rows.push(line);
            proof {
                assert(string_views(rows@) =~= string_views(before).push(line@));
                assert(self.debug_rows().take(i + 1) =~= self.debug_rows().take(i as int).push(
                    stat_line(name@, value@),
                ));
            }
        }
        proof {
            assert(self.debug_rows().take(n as int) =~= self.debug_rows());
        }
    }
}

impl PipelineStats {
    /// The debug text entries of pipeline `id` whose statistics list `rows`.
    pub fn from_rows(id: PipelineId, rows: Vec<String>) -> (s: PipelineStats)
        ensures
            s.label@ == spec_pipeline_label(id),
            s.rows@ == rows@,
    {
        PipelineStats { label: id.label(), rows }
    }

    /// The debug text entries of pipeline `id`, whose statistics are `stats`:
    /// the pipeline's label, and the lines the statistics list.
    pub fn collect<S: DebugStats>(id: PipelineId, stats: &S) -> (s: PipelineStats)
        ensures
            s.label@ == spec_pipeline_label(id),
            string_views(s.rows@) == stats.debug_rows(),
    {
        let mut rows: Vec<String> = Vec::new();
        proof {
            assert(string_views(rows@) =~= Seq::<Seq<char>>::empty());
        }
        stats.append_debug_text_rows(&mut rows);
        proof {
            assert(string_views(rows@) =~= stats.debug_rows());
        }
        PipelineStats::from_rows(id, rows)
    }
}

} // verus!
