use mkrp::engine::scene::{ChoiceItem, DialogueLine, SceneMode, SceneState};
use mkrp::launcher::{
    advance_timers, apply_action, background_to_load, is_compiled_script, is_font_file, is_image_file,
    is_story_script, order_scripts, script_priority_of, Config, ImageIndex,
};
use mkrp::render::input::HandheldAction;

fn args(v: &[&str]) -> Vec<String> {
    v.iter().map(|s| s.to_string()).collect()
}

#[test]
fn config_defaults_and_flags() {
    let c = Config::from_args(&args(&["mkrp"]));
    assert_eq!((c.game_dir.as_str(), c.save_dir.as_str()), ("game", "saves"));
    assert_eq!((c.target_width, c.target_height, c.enable_downscale, c.fullscreen), (640, 480, true, true));
    let c = Config::from_args(&args(&[
        "mkrp", "--game-dir", "/g", "--target-width", "800", "--target-height", "abc", "--windowed",
        "--no-downscale", "--save-dir",
    ]));
    assert_eq!(c.game_dir, "/g");
    assert_eq!(c.save_dir, "saves");
    assert_eq!((c.target_width, c.target_height), (800, 480));
    assert!(!c.fullscreen && !c.enable_downscale);
    let c = Config::from_args(&args(&["mkrp", "--target-width", "+99999999999", "--target-height", "+12"]));
    assert_eq!((c.target_width, c.target_height), (640, 12));
}

fn scene() -> SceneState {
    let mut s = SceneState::new();
    s.load_lines(vec![
        DialogueLine::new(None, "a".into()).with_background("bg_a".into()),
        DialogueLine::new(None, "b".into()),
        DialogueLine::new(None, "c".into())
            .with_choices(vec![ChoiceItem { text: "x".into(), target_label: None }; 2]),
    ]);
    s
}

#[test]
fn actions_drive_the_scene() {
    let mut s = scene();
    let r = apply_action(&mut s, HandheldAction::Next);
    assert!(r.redraw && r.restart_timer && !r.quit);
    assert_eq!(s.current_index, 1);
    apply_action(&mut s, HandheldAction::Next);
    assert_eq!(s.mode, SceneMode::ChoiceMenu);
    apply_action(&mut s, HandheldAction::Down);
    assert_eq!(s.selected_choice, 1);
    apply_action(&mut s, HandheldAction::Next);
    assert_eq!(s.current_index, 2);
    let r = apply_action(&mut s, HandheldAction::Rollback);
    assert!(r.redraw);
    assert_eq!(s.current_index, 1);
    apply_action(&mut s, HandheldAction::Next);
    s.mode = SceneMode::Dialogue;
    apply_action(&mut s, HandheldAction::Next);
    assert_eq!(s.current_index, 0);
    let r = apply_action(&mut s, HandheldAction::Up);
    assert!(!r.redraw);
    assert!(apply_action(&mut s, HandheldAction::Quit).quit);
}

#[test]
fn timers_skip_and_auto() {
    let mut s = scene();
    s.toggle_skip();
    assert!(advance_timers(&mut s, false).redraw);
    advance_timers(&mut s, false);
    assert_eq!(s.current_index, 2);
    let r = advance_timers(&mut s, false);
    assert!(!r.redraw && !s.skip_mode);
    let mut s = scene();
    s.toggle_auto();
    assert!(!advance_timers(&mut s, false).redraw);
    let r = advance_timers(&mut s, true);
    assert!(r.redraw && r.restart_timer);
    assert_eq!(s.current_index, 1);
}

#[test]
fn script_order() {
    assert_eq!(script_priority_of("Game/D1_1.rpyc"), 0);
    assert_eq!(script_priority_of("tl/Korean/events.rpyc"), 2);
    assert_eq!(script_priority_of("patches/x.rpyc"), 6);
    assert_eq!(script_priority_of("misc.rpyc"), 5);
    let v = order_scripts(&args(&["z.rpyc", "patches/p.rpyc", "story.rpyc", "start.rpyc", "d1_1.rpyc", "y.rpyc"]));
    assert_eq!(v, args(&["d1_1.rpyc", "start.rpyc", "story.rpyc", "z.rpyc", "y.rpyc", "patches/p.rpyc"]));
    assert!(is_story_script("tl/korean/x.rpyc"));
    assert!(!is_story_script("Story.rpyc"));
}

#[test]
fn image_index_and_backgrounds() {
    let files = args(&["images/CG07.avif", "gui/bar.PNG", "images/bg/d1_1_1.jpg", "music/a.ogg", "other/cg07.png"]);
    assert!(is_image_file("x.PNG"));
    assert!(!is_image_file("x.ogg"));
    let idx = ImageIndex::build(&files);
    assert_eq!(idx.base_names(), args(&["cg07", "bar", "d1_1_1"]));
    assert_eq!(idx.path_for(&"cg07".to_string()), Some("other/cg07.png".to_string()));
    assert_eq!(idx.find_background("D1_1_1", &files), Some("images/bg/d1_1_1.jpg".to_string()));
    assert_eq!(idx.find_background("bg/d1", &files), Some("images/bg/d1_1_1.jpg".to_string()));
    assert_eq!(idx.find_background("nothing", &files), None);
    let known = idx.known_images();
    assert_eq!(known.len(), 3);
    assert!(known.contains("cg07") && known.contains("bar") && known.contains("d1_1_1"));
    assert!(!known.contains("CG07"));
    assert!(ImageIndex::build(&Vec::new()).known_images().is_empty());
    let s = scene();
    assert_eq!(background_to_load(&s, &None), Some("bg_a".to_string()));
    assert_eq!(background_to_load(&s, &Some("bg_a".to_string())), None);
}

#[test]
fn script_order_is_a_stable_sort() {
    let input = args(&["b/events.rpyc", "x.rpyc", "a/story.rpyc", "w.rpyc", "c/events.rpyc", "prologue.rpyc"]);
    let v = order_scripts(&input);
    assert_eq!(
        v,
        args(&["prologue.rpyc", "b/events.rpyc", "a/story.rpyc", "c/events.rpyc", "x.rpyc", "w.rpyc"])
    );
    let mut sorted_in = input.clone();
    sorted_in.sort();
    let mut sorted_out = v.clone();
    sorted_out.sort();
    assert_eq!(sorted_in, sorted_out);
    let prios: Vec<u32> = v.iter().map(|p| script_priority_of(p)).collect();
    assert!(prios.windows(2).all(|w| w[0] <= w[1]));
    assert!(order_scripts(&Vec::new()).is_empty());
}

#[test]
fn script_and_font_files() {
    assert!(is_compiled_script("game/script.rpyc"));
    assert!(!is_compiled_script("game/script.rpy"));
    assert!(!is_compiled_script("game/script.RPYC"));
    assert!(is_font_file("gui/font.ttf"));
    assert!(is_font_file("NotoSansKR-Regular.otf"));
    assert!(!is_font_file("NotoSansCJK-Regular.ttc"));
}
