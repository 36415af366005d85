use katara::pipeline::{DebugStats, PipelineId, PipelineStats, SceneStats, StatList};

#[test]
fn pipeline_label_and_key() {
    assert_eq!(PipelineId::CpuSph.label(), "CPU SPH");
    assert_eq!(PipelineId::CpuSph.as_str(), "cpu_sph");
}

#[test]
fn collected_stats_carry_the_label_and_the_listed_lines() {
    let list = StatList {
        stats: vec![("avg_density", "1.5".to_string()), ("particle_count", "42".to_string())],
    };
    let stats = PipelineStats::collect(PipelineId::CpuSph, &list);
    assert_eq!(stats.label, "CPU SPH");
    assert_eq!(
        stats.rows,
        vec!["avg_density: 1.5".to_string(), "particle_count: 42".to_string()]
    );
    let scene = SceneStats { pipeline: stats };
    assert_eq!(scene.pipeline.rows.len(), 2);
}

#[test]
fn stat_lines_are_appended_after_existing_rows() {
    let list = StatList { stats: vec![("n", "3".to_string())] };
    let mut rows = vec!["first".to_string()];
    list.append_debug_text_rows(&mut rows);
    assert_eq!(rows, vec!["first".to_string(), "n: 3".to_string()]);
}

#[test]
fn empty_statistics_list_no_lines() {
    let stats = PipelineStats::collect(PipelineId::CpuSph, &StatList { stats: Vec::new() });
    assert!(stats.rows.is_empty());
}

#[test]
fn stats_from_rows_keep_the_rows_and_the_label() {
    let stats = PipelineStats::from_rows(
        PipelineId::CpuSph,
        vec!["a: 1".to_string(), "b: 2".to_string()],
    );
    assert_eq!(stats.label, "CPU SPH");
    assert_eq!(stats.rows, vec!["a: 1".to_string(), "b: 2".to_string()]);
}
