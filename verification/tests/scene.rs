use mkrp::engine::scene::{ChoiceItem, DialogueLine, SceneMode, SceneState};

fn line(text: &str) -> DialogueLine {
    DialogueLine::new(Some("A".to_string()), text.to_string())
}

fn choices(n: usize) -> Vec<ChoiceItem> {
    (0..n).map(|i| ChoiceItem { text: format!("c{}", i), target_label: None }).collect()
}

#[test]
fn new_state_defaults() {
    let s = SceneState::new();
    assert_eq!(s.mode, SceneMode::Dialogue);
    assert!(s.lines.is_empty());
    assert_eq!(s.current_index, 0);
    assert!(s.ui_visible && !s.auto_mode && !s.skip_mode);
    assert!(s.current_line().is_none());
}

#[test]
fn builders_set_fields() {
    let l = line("hi").with_background("bg".to_string()).with_choices(choices(2));
    assert_eq!(l.background.as_deref(), Some("bg"));
    assert_eq!(l.choices.len(), 2);
    assert_eq!(l.text, "hi");
}

#[test]
fn advance_and_rollback_walk_the_script() {
    let mut s = SceneState::new();
    s.load_lines(vec![
        line("one").with_background("bg1".to_string()),
        line("two"),
        line("three").with_choices(choices(3)),
    ]);
    assert_eq!(s.current_background.as_deref(), Some("bg1"));
    assert!(s.advance());
    assert_eq!(s.current_line().unwrap().text, "two");
    assert_eq!(s.current_background.as_deref(), Some("bg1"));
    assert!(s.advance());
    assert_eq!(s.mode, SceneMode::ChoiceMenu);
    assert!(!s.advance());
    assert_eq!(s.current_index, 2);
    assert!(s.rollback());
    assert_eq!(s.mode, SceneMode::Dialogue);
    assert!(s.rollback());
    assert!(!s.rollback());
    assert_eq!(s.current_index, 0);
}

#[test]
fn choice_cursor_stays_in_range() {
    let mut s = SceneState::new();
    s.load_lines(vec![line("q").with_choices(choices(2))]);
    s.choice_up();
    assert_eq!(s.selected_choice, 0);
    s.choice_down();
    assert_eq!(s.selected_choice, 1);
    s.choice_down();
    assert_eq!(s.selected_choice, 1);
    s.choice_up();
    assert_eq!(s.selected_choice, 0);
}

#[test]
fn toggles_keep_auto_and_skip_apart() {
    let mut s = SceneState::new();
    s.toggle_auto();
    assert!(s.auto_mode && !s.skip_mode);
    s.toggle_skip();
    assert!(s.skip_mode && !s.auto_mode);
    s.toggle_auto();
    assert!(s.auto_mode && !s.skip_mode);
    s.toggle_ui();
    s.toggle_ui();
    assert!(s.ui_visible);
}

#[test]
fn core_info_banner() {
    assert_eq!(mkrp::engine::info(), "mkrp-core v0.1.0");
}

#[test]
fn default_scene_is_fresh() {
    let s = SceneState::default();
    assert_eq!(s.mode, SceneMode::Dialogue);
    assert!(s.lines.is_empty());
    assert_eq!(s.current_index, 0);
    assert!(s.ui_visible && !s.auto_mode && !s.skip_mode);
    assert!(s.current_line().is_none());
}

#[test]
fn rollback_undoes_advance_and_back() {
    let mut s = SceneState::new();
    s.load_lines(vec![line("one").with_choices(choices(2)), line("two"), line("three")]);
    s.choice_down();
    s.toggle_auto();
    assert!(s.advance());
    assert!(s.rollback());
    assert_eq!(s.current_index, 0);
    assert_eq!(s.mode, SceneMode::ChoiceMenu);
    assert_eq!(s.selected_choice, 0);
    assert!(s.auto_mode && !s.skip_mode && s.ui_visible);
    assert!(s.advance());
    assert!(s.advance());
    assert!(s.rollback());
    assert!(s.advance());
    assert_eq!(s.current_index, 2);
    assert_eq!(s.mode, SceneMode::Dialogue);
}
