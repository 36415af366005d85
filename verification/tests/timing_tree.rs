use katara::text::NameOrder;
use katara::timing_tree::{
    compare_segments, join_path, label_rank_of, split_segments, timing_outline, OutlineEntry,
};

const GPU_FRAME: &str = "GPU Frame Time";

fn labels(list: &[&str]) -> Vec<String> {
    list.iter().map(|s| s.to_string()).collect()
}

fn segment(entry: &OutlineEntry) -> &str {
    entry.path.last().unwrap()
}

#[test]
fn gpu_labels_automatically_build_the_gui_tree() {
    let outline = timing_outline(&labels(&[GPU_FRAME, "GPU Frame Time/Simulation/New pass"]));
    assert_eq!(outline.len(), 3);
    assert_eq!(outline[0].path.len(), 1);
    assert_eq!(segment(&outline[0]), GPU_FRAME);
    assert_eq!(outline[1].path.len(), 2);
    assert_eq!(segment(&outline[1]), "Simulation");
    assert_eq!(outline[2].path.len(), 3);
    assert_eq!(segment(&outline[2]), "New pass");
    assert_eq!(outline[2].full_label, "GPU Frame Time/Simulation/New pass");
}

#[test]
fn siblings_follow_the_pipeline_order() {
    let outline = timing_outline(&labels(&[
        "GPU Frame Time/Particle render",
        "GPU Frame Time/Simulation/Density",
        "GPU Frame Time/Simulation/Radix sort",
        "GPU Frame Time/Simulation/Zeta",
        "GPU Frame Time/Simulation/Alpha",
        "GPU Frame Time/Simulation/Grid key upload",
        "GPU Frame Time",
    ]));
    let full: Vec<&str> = outline.iter().map(|e| e.full_label.as_str()).collect();
    assert_eq!(
        full,
        vec![
            "GPU Frame Time",
            "GPU Frame Time/Simulation",
            "GPU Frame Time/Simulation/Grid key upload",
            "GPU Frame Time/Simulation/Radix sort",
            "GPU Frame Time/Simulation/Density",
            "GPU Frame Time/Simulation/Alpha",
            "GPU Frame Time/Simulation/Zeta",
            "GPU Frame Time/Particle render",
        ]
    );
}

#[test]
fn repeated_labels_give_one_node() {
    let outline = timing_outline(&labels(&["A/B", "A/B", "A"]));
    let full: Vec<&str> = outline.iter().map(|e| e.full_label.as_str()).collect();
    assert_eq!(full, vec!["A", "A/B"]);
}

#[test]
fn unranked_roots_come_after_the_frame_by_name() {
    let outline = timing_outline(&labels(&["b", "GPU Frame Time", "a"]));
    let full: Vec<&str> = outline.iter().map(|e| e.full_label.as_str()).collect();
    assert_eq!(full, vec!["GPU Frame Time", "a", "b"]);
}

#[test]
fn no_labels_no_nodes() {
    assert!(timing_outline(&Vec::new()).is_empty());
}

#[test]
fn segments_keep_empty_parts() {
    assert_eq!(split_segments("a/b/c"), labels(&["a", "b", "c"]));
    assert_eq!(split_segments("a//b"), labels(&["a", "", "b"]));
    assert_eq!(split_segments(""), labels(&[""]));
    assert_eq!(split_segments("a/"), labels(&["a", ""]));
}

#[test]
fn joining_skips_separators_after_empty_leading_segments() {
    assert_eq!(join_path(&labels(&["a", "", "b"])), "a//b");
    assert_eq!(join_path(&labels(&["", "x"])), "x");
    assert_eq!(join_path(&split_segments("GPU Frame Time/Density")), "GPU Frame Time/Density");
}

#[test]
fn label_ranks() {
    assert_eq!(label_rank_of("GPU Frame Time"), 0);
    assert_eq!(label_rank_of("Simulation"), 1);
    assert_eq!(label_rank_of("Grid key upload"), 2);
    assert_eq!(label_rank_of("Radix sort"), 3);
    assert_eq!(label_rank_of("Grid start indices"), 4);
    assert_eq!(label_rank_of("Density"), 5);
    assert_eq!(label_rank_of("Pressure and viscosity"), 6);
    assert_eq!(label_rank_of("Collision and integration"), 7);
    assert_eq!(label_rank_of("Particle render"), 8);
    assert_eq!(label_rank_of("Something else"), 9);
    assert_eq!(compare_segments("Density", "Collision and integration"), NameOrder::Less);
    assert_eq!(compare_segments("Zeta", "Alpha"), NameOrder::Greater);
    assert_eq!(compare_segments("Alpha", "Alpha"), NameOrder::Equal);
}

#[test]
fn outline_parents_point_back_to_the_enclosing_node() {
    let outline = timing_outline(&labels(&[
        "GPU Frame Time/Simulation/Density",
        "GPU Frame Time/Particle render",
        "Other",
    ]));
    let parents = katara::timing_tree::outline_parents(&outline);
    let full: Vec<&str> = outline.iter().map(|e| e.full_label.as_str()).collect();
    assert_eq!(
        full,
        vec![
            "GPU Frame Time",
            "GPU Frame Time/Simulation",
            "GPU Frame Time/Simulation/Density",
            "GPU Frame Time/Particle render",
            "Other",
        ]
    );
    assert_eq!(parents, vec![None, Some(0), Some(1), Some(0), None]);
}
