use katara::debug_watch::{snapshot, Watch};
use katara::gui::{
    decimal_string, split_watch_name, CameraPanel, DebugPanel, DebugRow, DebugText,
};
use katara::pipeline::PipelineStats;

#[test]
fn panels_start_open_and_toggle() {
    let mut debug = DebugPanel::new();
    assert!(debug.open);
    debug.toggle();
    assert!(!debug.open);
    debug.toggle();
    assert!(debug.open);
    assert!(CameraPanel::new().open);
}

#[test]
fn debug_text_starts_hidden_and_toggles() {
    let mut text = DebugText::new();
    assert!(!text.open);
    text.toggle();
    assert!(text.open);
}

#[test]
fn debug_row_has_no_tooltip() {
    let row = DebugRow::new("FPS: 60.0".to_string());
    assert_eq!(row.text, "FPS: 60.0");
    assert!(row.tooltip.is_none());
}

#[test]
fn watch_names_split_at_the_first_dot() {
    assert_eq!(
        split_watch_name("sim.grid.cells"),
        ("sim".to_string(), "grid.cells".to_string())
    );
    assert_eq!(split_watch_name("fps"), ("misc".to_string(), "fps".to_string()));
    assert_eq!(split_watch_name(".x"), ("".to_string(), "x".to_string()));
    assert_eq!(split_watch_name("a."), ("a".to_string(), "".to_string()));
}

#[test]
fn decimal_notation() {
    assert_eq!(decimal_string(0), "0");
    assert_eq!(decimal_string(7), "7");
    assert_eq!(decimal_string(120), "120");
    assert_eq!(decimal_string(u64::MAX), u64::MAX.to_string());
}

fn texts(rows: &[DebugRow]) -> Vec<String> {
    rows.iter().map(|r| r.text.clone()).collect()
}

#[test]
fn hidden_debug_text_lists_nothing() {
    let text = DebugText::new();
    let pipeline = PipelineStats { label: "CPU SPH", rows: vec!["particle_count: 4".to_string()] };
    let mut w = Watch::new();
    katara::debug_watch::set(&mut w, "sim.a", "1".to_string(), "f.rs", 1);
    assert!(text.rows(&pipeline, &snapshot(&w)).is_empty());
}

#[test]
fn debug_text_groups_watches_under_headers() {
    let mut text = DebugText::new();
    text.toggle();
    let pipeline = PipelineStats {
        label: "CPU SPH",
        rows: vec!["particle_count: 4".to_string(), "avg_density: 1".to_string()],
    };
    let mut w = Watch::new();
    katara::debug_watch::set(&mut w, "sim.pressure", "3".to_string(), "src/sim.rs", 42);
    katara::debug_watch::set(&mut w, "sim.density", "2".to_string(), "src/sim.rs", 41);
    katara::debug_watch::set(&mut w, "camera.pos", "0".to_string(), "src/camera.rs", 7);
    katara::debug_watch::set(&mut w, "frames", "9".to_string(), "src/main.rs", 3);
    let rows = text.rows(&pipeline, &snapshot(&w));
    assert_eq!(
        texts(&rows),
        vec![
            "[CPU SPH]",
            "particle_count: 4",
            "avg_density: 1",
            "[camera]",
            "pos: 0",
            "[misc]",
            "frames: 9",
            "[sim]",
            "density: 2",
            "pressure: 3",
        ]
    );
    assert!(rows[0].tooltip.is_none());
    assert!(rows[1].tooltip.is_none());
    assert_eq!(rows[4].tooltip.as_deref(), Some("src/camera.rs:7\nlast seen frame: 0"));
    assert_eq!(rows[9].tooltip.as_deref(), Some("src/sim.rs:42\nlast seen frame: 0"));
}

#[test]
fn pipeline_without_statistics_gets_no_header() {
    let mut text = DebugText::new();
    text.toggle();
    let pipeline = PipelineStats { label: "CPU SPH", rows: Vec::new() };
    let w = Watch::new();
    assert!(text.rows(&pipeline, &snapshot(&w)).is_empty());
}
