use logreduce::content::Source;
use logreduce::index_name::IndexName;
use logreduce::inspect::{AnomalyAction, AnomalyWindow, LiveState};
use logreduce::model::{resolve_model, should_save, Model, ModelPlan};

#[test]
fn model_resolution_table() {
    assert_eq!(resolve_model(true, false), ModelPlan::Load);
    assert_eq!(resolve_model(true, true), ModelPlan::Ambiguous);
    assert_eq!(resolve_model(false, true), ModelPlan::TrainFromGiven);
    assert_eq!(resolve_model(false, false), ModelPlan::TrainFromDiscovered);
}

#[test]
fn model_is_saved_only_to_a_new_path() {
    assert!(should_save(true, false));
    assert!(!should_save(true, true));
    assert!(!should_save(false, false));
}

#[test]
fn model_lookup_by_group() {
    let mut model: Model<u32> = Model::new();
    assert_eq!(model.get_index(&Source::Local(0, "a/x.log".to_string())), None);
    model.add_index(IndexName("a/x.log".to_string()), 7);
    model.add_index(IndexName("b/y.log".to_string()), 8);
    assert_eq!(model.get_index(&Source::Local(0, "/r/a/x.log.3".to_string())), Some(&7));
    assert_eq!(model.get_index(&Source::Local(0, "b/y.log".to_string())), Some(&8));
    assert_eq!(model.get_index(&Source::Local(0, "c/z.log".to_string())), None);
    model.add_index(IndexName("a/x.log".to_string()), 9);
    assert_eq!(model.get_index(&Source::Local(0, "a/x.log".to_string())), Some(&9));
}

#[test]
fn model_round_trips_through_entries() {
    let mut model: Model<u32> = Model::new();
    model.add_index(IndexName("a/x.log".to_string()), 1);
    model.add_index(IndexName("log".to_string()), 2);
    let entries = model.entries().clone();
    let reloaded = Model::from_entries(entries);
    assert_eq!(reloaded.get_index(&Source::Local(0, "a/x.log".to_string())), Some(&1));
    assert_eq!(reloaded.get_index(&Source::Local(0, "builds/3/log".to_string())), Some(&2));
    assert_eq!(reloaded.get_index(&Source::Local(0, "other/z".to_string())), None);
}

fn w(pos: usize, before: usize, after: usize) -> AnomalyWindow {
    AnomalyWindow { pos, before, after }
}

#[test]
fn adjacent_windows_have_no_gap() {
    let mut s = LiveState::new();
    s.begin_source();
    let a = s.on_anomaly(false, w(5, 2, 1));
    assert_eq!(a, AnomalyAction { separator: false, gap: false, start: 2 });
    assert_eq!(s.last_pos, Some(6));
    let b = s.on_anomaly(false, w(9, 2, 3));
    assert_eq!(b, AnomalyAction { separator: false, gap: false, start: 6 });
}

#[test]
fn skipped_lines_give_one_gap_marker() {
    let mut s = LiveState::new();
    s.begin_source();
    let a = s.on_anomaly(false, w(3, 2, 0));
    assert!(!a.gap);
    let b = s.on_anomaly(false, w(10, 1, 0));
    assert_eq!(b, AnomalyAction { separator: false, gap: true, start: 8 });
    let c = s.on_anomaly(false, w(11, 0, 0));
    assert!(!c.gap);
}

#[test]
fn gap_state_resets_per_source() {
    let mut s = LiveState::new();
    s.begin_source();
    s.on_anomaly(false, w(3, 0, 0));
    s.begin_source();
    let a = s.on_anomaly(false, w(50, 2, 2));
    assert!(!a.gap);
}

#[test]
fn progress_separator_before_first_event_only() {
    let mut s = LiveState::new();
    s.begin_source();
    assert!(s.on_anomaly(true, w(1, 0, 0)).separator);
    assert!(!s.on_anomaly(true, w(2, 0, 0)).separator);
    assert!(!s.finish(true));
    s.begin_source();
    assert!(s.on_read_error(true));
    assert!(!s.on_read_error(true));
}

#[test]
fn source_without_anomalies_erases_progress() {
    let mut s = LiveState::new();
    s.begin_source();
    assert!(s.finish(true));
    assert!(!s.finish(false));
}

#[test]
fn source_without_baseline_keeps_its_notice() {
    let mut s = LiveState::new();
    let model: Model<u32> = Model::new();
    let src = Source::Local(0, "x/y.log".to_string());
    assert_eq!(model.get_index(&src), None);
    s.no_baseline();
    assert!(!s.finish(true));
}
