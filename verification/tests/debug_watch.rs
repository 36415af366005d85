use katara::debug_watch::{begin_frame, clear, snapshot, Watch};

fn names(w: &Watch) -> Vec<&'static str> {
    snapshot(w).into_iter().map(|(name, _)| name).collect()
}

#[test]
fn snapshot_lists_watches_sorted_by_name() {
    let mut w = Watch::new();
    katara::debug_watch::set(&mut w, "sim.pressure", "3".to_string(), "a.rs", 10);
    katara::debug_watch::set(&mut w, "camera.pos", "(0, 0)".to_string(), "b.rs", 20);
    katara::debug_watch::set(&mut w, "sim.density", "1.5".to_string(), "a.rs", 11);
    assert_eq!(names(&w), vec!["camera.pos", "sim.density", "sim.pressure"]);
}

#[test]
fn setting_again_replaces_the_value() {
    let mut w = Watch::new();
    katara::debug_watch::set(&mut w, "x", "1".to_string(), "a.rs", 1);
    katara::debug_watch::set(&mut w, "x", "2".to_string(), "c.rs", 7);
    let s = snapshot(&w);
    assert_eq!(s.len(), 1);
    assert_eq!(s[0].0, "x");
    assert_eq!(s[0].1.value, "2");
    assert_eq!(s[0].1.file, "c.rs");
    assert_eq!(s[0].1.line, 7);
}

#[test]
fn entries_remember_the_frame_they_were_set_in() {
    let mut w = Watch::new();
    begin_frame(&mut w, 5, false);
    katara::debug_watch::set(&mut w, "a", "v".to_string(), "f.rs", 3);
    assert_eq!(snapshot(&w)[0].1.last_seen_frame, 5);
}

#[test]
fn running_frame_start_drops_stale_watches() {
    let mut w = Watch::new();
    begin_frame(&mut w, 1, false);
    katara::debug_watch::set(&mut w, "old", "1".to_string(), "f.rs", 1);
    begin_frame(&mut w, 2, false);
    katara::debug_watch::set(&mut w, "new", "2".to_string(), "f.rs", 2);
    begin_frame(&mut w, 2, false);
    assert_eq!(names(&w), vec!["new"]);
    begin_frame(&mut w, 3, false);
    assert!(snapshot(&w).is_empty());
}

#[test]
fn paused_frame_start_keeps_every_watch() {
    let mut w = Watch::new();
    begin_frame(&mut w, 1, false);
    katara::debug_watch::set(&mut w, "b", "1".to_string(), "f.rs", 1);
    katara::debug_watch::set(&mut w, "a", "2".to_string(), "f.rs", 2);
    begin_frame(&mut w, 9, true);
    assert_eq!(names(&w), vec!["a", "b"]);
}

#[test]
fn clear_drops_everything() {
    let mut w = Watch::new();
    katara::debug_watch::set(&mut w, "a", "1".to_string(), "f.rs", 1);
    katara::debug_watch::set(&mut w, "b", "2".to_string(), "f.rs", 2);
    clear(&mut w);
    assert!(snapshot(&w).is_empty());
}

#[test]
fn names_order_by_character_not_length() {
    let mut w = Watch::new();
    katara::debug_watch::set(&mut w, "b", "1".to_string(), "f.rs", 1);
    katara::debug_watch::set(&mut w, "ab", "2".to_string(), "f.rs", 1);
    katara::debug_watch::set(&mut w, "a", "3".to_string(), "f.rs", 1);
    katara::debug_watch::set(&mut w, "B", "4".to_string(), "f.rs", 1);
    assert_eq!(names(&w), vec!["B", "a", "ab", "b"]);
}

#[test]
fn consecutive_snapshots_agree() {
    let mut w = Watch::new();
    katara::debug_watch::set(&mut w, "b", "1".to_string(), "f.rs", 1);
    katara::debug_watch::set(&mut w, "a", "2".to_string(), "g.rs", 2);
    let first = snapshot(&w);
    let second = snapshot(&w);
    assert_eq!(first.len(), second.len());
    for (x, y) in first.iter().zip(second.iter()) {
        assert_eq!(x.0, y.0);
        assert_eq!(x.1.value, y.1.value);
        assert_eq!(x.1.file, y.1.file);
        assert_eq!(x.1.line, y.1.line);
        assert_eq!(x.1.last_seen_frame, y.1.last_seen_frame);
    }
}
