//! The decisions of the runner program: its command line, and what each
//! turn of its loop does with the scene.

use vstd::prelude::*;

use crate::engine::scene::{SceneMode, SceneState};
use crate::render::input::HandheldAction;
use crate::strings::{empty_text_set, file_stem, insert_text, lowercase, path_stem, set_texts, to_lowercase};
use std::collections::HashSet;
use crate::text::{
    contains, ends_with, has_infix, has_suffix, parse_u32, parse_u32_chars, same_chars, str_chars,
};

verus! {

/// Abstract contents of a [`Config`].
pub struct ConfigView {
    pub game_dir: Seq<char>,
    pub save_dir: Seq<char>,
    pub target_width: u32,
    pub target_height: u32,
    pub enable_downscale: bool,
    pub fullscreen: bool,
}

/// The runner's settings.
pub struct Config {
    pub game_dir: String,
    pub save_dir: String,
    pub target_width: u32,
    pub target_height: u32,
    pub enable_downscale: bool,
    pub fullscreen: bool,
}

impl View for Config {
    type V = ConfigView;

    open spec fn view(&self) -> ConfigView {
        ConfigView {
            game_dir: self.game_dir@,
            save_dir: self.save_dir@,
            target_width: self.target_width,
            target_height: self.target_height,
            enable_downscale: self.enable_downscale,
            fullscreen: self.fullscreen,
        }
    }
}

/// The settings with no arguments: `game` and `saves`, 640 by 480,
/// downscaling on, full screen.
pub open spec fn default_config() -> ConfigView {
    ConfigView {
        game_dir: "game"@,
        save_dir: "saves"@,
        target_width: 640,
        target_height: 480,
        enable_downscale: true,
        fullscreen: true,
    }
}

/// The settings after reading the arguments from position `i` on:
/// `--game-dir`, `--save-dir`, `--target-width` and `--target-height`
/// take the next argument (a size that does not parse leaves the setting
/// as it was); `--no-downscale` and `--windowed` switch their setting off;
/// a value flag with nothing after it, and anything else, is passed over.
pub open spec fn config_from(args: Seq<Seq<char>>, i: int, c: ConfigView) -> ConfigView
    decreases args.len() - i,
{
    if i < 0 || i >= args.len() {
        c
    } else {
        let a = args[i];
        let has_next = i + 1 < args.len();
        if a == "--game-dir"@ && has_next {
            config_from(args, i + 2, ConfigView { game_dir: args[i + 1], ..c })
        } else if a == "--save-dir"@ && has_next {
            config_from(args, i + 2, ConfigView { save_dir: args[i + 1], ..c })
        } else if a == "--target-width"@ && has_next {
            let w = match parse_u32(args[i + 1]) {
                Ok(v) => v,
                Err(_) => c.target_width,
            };
            config_from(args, i + 2, ConfigView { target_width: w, ..c })
        } else if a == "--target-height"@ && has_next {
            let h = match parse_u32(args[i + 1]) {
                Ok(v) => v,
                Err(_) => c.target_height,
            };
            config_from(args, i + 2, ConfigView { target_height: h, ..c })
        } else if a == "--no-downscale"@ {
            config_from(args, i + 1, ConfigView { enable_downscale: false, ..c })
        } else if a == "--windowed"@ {
            config_from(args, i + 1, ConfigView { fullscreen: false, ..c })
        } else {
            config_from(args, i + 1, c)
        }
    }
}

/// The texts of a list of strings.
pub open spec fn texts(v: Seq<String>) -> Seq<Seq<char>> {
    v.map_values(|s: String| s@)
}

/// Whether a string holds exactly the text of `p`.
fn is_flag(a: &String, p: &str) -> (r: bool)
    ensures
        r == (a@ == p@),
{
    let cs = str_chars(a.as_str());
    same_chars(&cs, &str_chars(p))
}

/// A size argument, or the current value where it does not parse.
fn size_arg(a: &String, current: u32) -> (r: u32)
    ensures
        r == match parse_u32(a@) {
            Ok(v) => v,
            Err(_) => current,
        },
{
    let cs = str_chars(a.as_str());
    match parse_u32_chars(&cs) {
        Ok(v) => v,
        Err(_) => current,
    }
}

impl Config {
    /// The settings from a command line; the first argument, the program's
    /// name, is not read.
    pub fn from_args(args: &Vec<String>) -> (r: Config)
        ensures
            r@ == config_from(texts(args@), 1, default_config()),
    {
        let mut c = Config {
            game_dir: String::from_str("game"),
            save_dir: String::from_str("saves"),
            target_width: 640,
            target_height: 480,
            enable_downscale: true,
            fullscreen: true,
        };
        let ghost a = texts(args@);
        let n = args.len();
        let mut i: usize = 1;
        assert(c@ == default_config());
        while i < n
            invariant
                n == args@.len(),
                a == texts(args@),
                1 <= i,
                config_from(a, 1, default_config()) == config_from(a, i as int, c@),
            decreases n - i,
        {
            let has_next = i + 1 < n;
            assert(a[i as int] == args@[i as int]@);
            if has_next {
                assert(a[i + 1] == args@[i + 1]@);
            }
            if is_flag(&args[i], "--game-dir") && has_next {
                c.game_dir = args[i + 1].clone();
                i += 2;
            } else if is_flag(&args[i], "--save-dir") && has_next {
                c.save_dir = args[i + 1].clone();
                i += 2;
            } else if is_flag(&args[i], "--target-width") && has_next {
                c.target_width = size_arg(&args[i + 1], c.target_width);
                i += 2;
            } else if is_flag(&args[i], "--target-height") && has_next {
                c.target_height = size_arg(&args[i + 1], c.target_height);
                i += 2;
            } else if is_flag(&args[i], "--no-downscale") {
                c.enable_downscale = false;
                i += 1;
            } else if is_flag(&args[i], "--windowed") {
                c.fullscreen = false;
                i += 1;
            } else {
                i += 1;
            }
        }
        c
    }
}


/// Whether no argument from position `i` on is the text `f`.
pub open spec fn absent_from(args: Seq<Seq<char>>, i: int, f: Seq<char>) -> bool {
    forall|j: int| i <= j < args.len() ==> args[j] != f
}

/// A setting whose flag does not occur from position `i` on keeps its
/// value, and a switched-off setting stays off.
proof fn lemma_config_keeps(args: Seq<Seq<char>>, i: int, c: ConfigView)
    requires
        0 <= i,
    ensures
        absent_from(args, i, "--game-dir"@) ==> config_from(args, i, c).game_dir == c.game_dir,
        absent_from(args, i, "--save-dir"@) ==> config_from(args, i, c).save_dir == c.save_dir,
        absent_from(args, i, "--target-width"@) ==> config_from(args, i, c).target_width
            == c.target_width,
        absent_from(args, i, "--target-height"@) ==> config_from(args, i, c).target_height
            == c.target_height,
        absent_from(args, i, "--no-downscale"@) ==> config_from(args, i, c).enable_downscale
            == c.enable_downscale,
        absent_from(args, i, "--windowed"@) ==> config_from(args, i, c).fullscreen == c.fullscreen,
        !c.enable_downscale ==> !config_from(args, i, c).enable_downscale,
        !c.fullscreen ==> !config_from(args, i, c).fullscreen,
    decreases args.len() - i,
{
    if i < args.len() {
        let a = args[i];
        let has_next = i + 1 < args.len();
        if a == "--game-dir"@ && has_next {
            lemma_config_keeps(args, i + 2, ConfigView { game_dir: args[i + 1], ..c });
        } else if a == "--save-dir"@ && has_next {
            lemma_config_keeps(args, i + 2, ConfigView { save_dir: args[i + 1], ..c });
        } else if a == "--target-width"@ && has_next {
            let w = match parse_u32(args[i + 1]) {
                Ok(v) => v,
                Err(_) => c.target_width,
            };
            lemma_config_keeps(args, i + 2, ConfigView { target_width: w, ..c });
        } else if a == "--target-height"@ && has_next {
            let h = match parse_u32(args[i + 1]) {
                Ok(v) => v,
                Err(_) => c.target_height,
            };
            lemma_config_keeps(args, i + 2, ConfigView { target_height: h, ..c });
        } else if a == "--no-downscale"@ {
            lemma_config_keeps(args, i + 1, ConfigView { enable_downscale: false, ..c });
        } else if a == "--windowed"@ {
            lemma_config_keeps(args, i + 1, ConfigView { fullscreen: false, ..c });
        } else {
            lemma_config_keeps(args, i + 1, c);
        }
    }
}

/// The flags of the command line are distinct texts.
proof fn lemma_flags_differ()
    ensures
        "--game-dir"@ != "--save-dir"@,
        "--game-dir"@ != "--target-width"@,
        "--game-dir"@ != "--target-height"@,
        "--save-dir"@ != "--target-width"@,
        "--save-dir"@ != "--target-height"@,
        "--target-width"@ != "--target-height"@,
        "--no-downscale"@ != "--game-dir"@,
        "--no-downscale"@ != "--save-dir"@,
        "--no-downscale"@ != "--target-width"@,
        "--no-downscale"@ != "--target-height"@,
        "--windowed"@ != "--game-dir"@,
        "--windowed"@ != "--save-dir"@,
        "--windowed"@ != "--target-width"@,
        "--windowed"@ != "--target-height"@,
        "--windowed"@ != "--no-downscale"@,
{
    reveal_strlit("--game-dir");
    reveal_strlit("--save-dir");
    reveal_strlit("--target-width");
    reveal_strlit("--target-height");
    reveal_strlit("--no-downscale");
    reveal_strlit("--windowed");
    assert("--game-dir"@[2] != "--save-dir"@[2]);
    assert("--target-width"@.len() != "--target-height"@.len());
    assert("--no-downscale"@[2] != "--target-width"@[2]);
    assert("--windowed"@[2] != "--game-dir"@[2]);
    assert("--windowed"@[2] != "--save-dir"@[2]);
    assert("--windowed"@[2] != "--target-width"@[2]);
    assert("--windowed"@[2] != "--no-downscale"@[2]);
    assert("--no-downscale"@[2] != "--game-dir"@[2]);
    assert("--no-downscale"@[2] != "--save-dir"@[2]);
    assert("--game-dir"@.len() != "--target-width"@.len());
    assert("--game-dir"@.len() != "--target-height"@.len());
    assert("--save-dir"@.len() != "--target-width"@.len());
    assert("--save-dir"@.len() != "--target-height"@.len());
    assert("--no-downscale"@.len() != "--target-height"@.len());
}

/// A value flag read at position `i` with an argument after it sets its
/// setting to that argument (a size that does not parse keeps the
/// setting), unless the same flag comes again later.
pub proof fn law_value_flags(args: Seq<Seq<char>>, i: int, c: ConfigView)
    requires
        0 <= i,
        i + 1 < args.len(),
    ensures
        args[i] == "--game-dir"@ && absent_from(args, i + 2, "--game-dir"@) ==> config_from(
            args,
            i,
            c,
        ).game_dir == args[i + 1],
        args[i] == "--save-dir"@ && absent_from(args, i + 2, "--save-dir"@) ==> config_from(
            args,
            i,
            c,
        ).save_dir == args[i + 1],
        args[i] == "--target-width"@ && absent_from(args, i + 2, "--target-width"@) ==> config_from(
            args,
            i,
            c,
        ).target_width == match parse_u32(args[i + 1]) {
            Ok(v) => v,
            Err(_) => c.target_width,
        },
        args[i] == "--target-height"@ && absent_from(args, i + 2, "--target-height"@)
            ==> config_from(args, i, c).target_height == match parse_u32(args[i + 1]) {
            Ok(v) => v,
            Err(_) => c.target_height,
        },
{
    lemma_flags_differ();
    let a = args[i];
    if a == "--game-dir"@ {
        lemma_config_keeps(args, i + 2, ConfigView { game_dir: args[i + 1], ..c });
    } else if a == "--save-dir"@ {
        lemma_config_keeps(args, i + 2, ConfigView { save_dir: args[i + 1], ..c });
    } else if a == "--target-width"@ {
        let w = match parse_u32(args[i + 1]) {
            Ok(v) => v,
            Err(_) => c.target_width,
        };
        lemma_config_keeps(args, i + 2, ConfigView { target_width: w, ..c });
    } else if a == "--target-height"@ {
        let h = match parse_u32(args[i + 1]) {
            Ok(v) => v,
            Err(_) => c.target_height,
        };
        lemma_config_keeps(args, i + 2, ConfigView { target_height: h, ..c });
    }
}

/// `--no-downscale` and `--windowed`, once read, switch their setting off
/// for good.
pub proof fn law_switch_flags(args: Seq<Seq<char>>, i: int, c: ConfigView)
    requires
        0 <= i < args.len(),
    ensures
        args[i] == "--no-downscale"@ ==> !config_from(args, i, c).enable_downscale,
        args[i] == "--windowed"@ ==> !config_from(args, i, c).fullscreen,
{
    lemma_flags_differ();
    if args[i] == "--no-downscale"@ {
        lemma_config_keeps(args, i + 1, ConfigView { enable_downscale: false, ..c });
    } else if args[i] == "--windowed"@ {
        lemma_config_keeps(args, i + 1, ConfigView { fullscreen: false, ..c });
    }
}

/// The settings of a command line: a setting whose flag is not given
/// keeps its default (`game`, `saves`, 640 by 480, downscaling on, full
/// screen), and `--game-dir` or `--save-dir` right after the program's
/// name, with a value, sets that directory to the value unless the flag
/// comes again.
pub proof fn law_command_line(args: Seq<Seq<char>>)
    ensures
        absent_from(args, 1, "--game-dir"@) ==> config_from(args, 1, default_config()).game_dir
            == "game"@,
        absent_from(args, 1, "--save-dir"@) ==> config_from(args, 1, default_config()).save_dir
            == "saves"@,
        absent_from(args, 1, "--target-width"@) ==> config_from(
            args,
            1,
            default_config(),
        ).target_width == 640,
        absent_from(args, 1, "--target-height"@) ==> config_from(
            args,
            1,
            default_config(),
        ).target_height == 480,
        absent_from(args, 1, "--no-downscale"@) ==> config_from(
            args,
            1,
            default_config(),
        ).enable_downscale,
        absent_from(args, 1, "--windowed"@) ==> config_from(args, 1, default_config()).fullscreen,
        args.len() >= 3 && args[1] == "--save-dir"@ && absent_from(args, 3, "--save-dir"@)
            ==> config_from(args, 1, default_config()).save_dir == args[2],
        args.len() >= 3 && args[1] == "--game-dir"@ && absent_from(args, 3, "--game-dir"@)
            ==> config_from(args, 1, default_config()).game_dir == args[2],
{
    lemma_config_keeps(args, 1, default_config());
    if args.len() >= 3 {
        law_value_flags(args, 1, default_config());
    }
}

/// What the runner does after one turn: stop, draw the frame again, and
/// restart the auto-advance timer.
#[derive(Debug, Clone, Copy, PartialEq, Eq, Structural)]
pub struct Reaction {
    pub quit: bool,
    pub redraw: bool,
    pub restart_timer: bool,
}

/// The scene after an action, and the runner's reaction. Next confirms a
/// choice or moves to the next line, and past the last line goes back to
/// the first (without re-reading its attributes); Rollback steps back;
/// HideUi, Menu and Skip switch the interface, auto-advance and skipping;
/// Up and Down move the cursor of a choice menu; Quit stops.
pub open spec fn reacted(s: SceneState, a: HandheldAction) -> (SceneState, Reaction) {
    match a {
        HandheldAction::Quit => (s, Reaction { quit: true, redraw: false, restart_timer: false }),
        HandheldAction::Next => {
            let next = if s.mode == SceneMode::ChoiceMenu {
                s.advanced().0
            } else if s.advanced().1 {
                s.advanced().0
            } else {
                SceneState { current_index: 0, ..s }
            };
            (next, Reaction { quit: false, redraw: true, restart_timer: true })
        },
        HandheldAction::Rollback => (
            s.rolled_back().0,
            Reaction { quit: false, redraw: s.rolled_back().1, restart_timer: false },
        ),
        HandheldAction::HideUi => (
            s.toggled_ui(),
            Reaction { quit: false, redraw: true, restart_timer: false },
        ),
        HandheldAction::Menu => (
            s.toggled_auto(),
            Reaction { quit: false, redraw: true, restart_timer: true },
        ),
        HandheldAction::Skip => (
            s.toggled_skip(),
            Reaction { quit: false, redraw: true, restart_timer: false },
        ),
        HandheldAction::Up => if s.mode == SceneMode::ChoiceMenu {
            (s.cursor_up(), Reaction { quit: false, redraw: true, restart_timer: false })
        } else {
            (s, Reaction { quit: false, redraw: false, restart_timer: false })
        },
        HandheldAction::Down => if s.mode == SceneMode::ChoiceMenu {
            (s.cursor_down(), Reaction { quit: false, redraw: true, restart_timer: false })
        } else {
            (s, Reaction { quit: false, redraw: false, restart_timer: false })
        },
    }
}

/// The scene after the timers are looked at, and the reaction: skipping
/// moves on every turn and stops at the last line; auto-advance moves on
/// when its time is due and stops at the last line.
pub open spec fn ticked(s: SceneState, auto_due: bool) -> (SceneState, Reaction) {
    if s.skip_mode {
        if s.advanced().1 {
            (s.advanced().0, Reaction { quit: false, redraw: true, restart_timer: false })
        } else {
            (SceneState { skip_mode: false, ..s }, Reaction { quit: false, redraw: false, restart_timer: false })
        }
    } else if s.auto_mode && auto_due {
        if s.advanced().1 {
            (s.advanced().0, Reaction { quit: false, redraw: true, restart_timer: true })
        } else {
            (SceneState { auto_mode: false, ..s }, Reaction { quit: false, redraw: false, restart_timer: false })
        }
    } else {
        (s, Reaction { quit: false, redraw: false, restart_timer: false })
    }
}

/// Applies a player action to the scene.
pub fn apply_action(scene: &mut SceneState, action: HandheldAction) -> (r: Reaction)
    requires
        action == HandheldAction::Next ==> old(scene).current_index < usize::MAX,
        action == HandheldAction::Down && old(scene).in_choices() ==> old(scene).selected_choice
            < usize::MAX,
    ensures
        (*final(scene), r) == reacted(*old(scene), action),
{
    match action {
        HandheldAction::Quit => Reaction { quit: true, redraw: false, restart_timer: false },
        HandheldAction::Next => {
            if scene.mode == SceneMode::ChoiceMenu {
                scene.advance();
            } else if !scene.advance() {
                scene.current_index = 0;
            }
            Reaction { quit: false, redraw: true, restart_timer: true }
        },
        HandheldAction::Rollback => {
            let moved = scene.rollback();
            Reaction { quit: false, redraw: moved, restart_timer: false }
        },
        HandheldAction::HideUi => {
            scene.toggle_ui();
            Reaction { quit: false, redraw: true, restart_timer: false }
        },
        HandheldAction::Menu => {
            scene.toggle_auto();
            Reaction { quit: false, redraw: true, restart_timer: true }
        },
        HandheldAction::Skip => {
            scene.toggle_skip();
            Reaction { quit: false, redraw: true, restart_timer: false }
        },
        HandheldAction::Up => {
            if scene.mode == SceneMode::ChoiceMenu {
                scene.choice_up();
                Reaction { quit: false, redraw: true, restart_timer: false }
            } else {
                Reaction { quit: false, redraw: false, restart_timer: false }
            }
        },
        HandheldAction::Down => {
            if scene.mode == SceneMode::ChoiceMenu {
                scene.choice_down();
                Reaction { quit: false, redraw: true, restart_timer: false }
            } else {
                Reaction { quit: false, redraw: false, restart_timer: false }
            }
        },
    }
}

/// Menu switches auto-advance: it flips `auto_mode`, turning it on stops
/// skipping and turning it off leaves skipping as it was; nothing else of
/// the scene changes, and the runner redraws and restarts the timer.
pub proof fn law_menu_switches_auto(s: SceneState)
    ensures
        ({
            let (n, r) = reacted(s, HandheldAction::Menu);
            &&& n.auto_mode == !s.auto_mode
            &&& !s.auto_mode ==> !n.skip_mode
            &&& s.auto_mode ==> n.skip_mode == s.skip_mode
            &&& n.lines == s.lines
            &&& n.current_index == s.current_index
            &&& n.mode == s.mode
            &&& n.current_background == s.current_background
            &&& n.ui_visible == s.ui_visible
            &&& n.selected_choice == s.selected_choice
            &&& !r.quit && r.redraw && r.restart_timer
        }),
{
}

/// Skip switches skipping: it flips `skip_mode`, turning it on stops
/// auto-advance and turning it off leaves auto-advance as it was; nothing
/// else of the scene changes, and the runner redraws.
pub proof fn law_skip_switches_skipping(s: SceneState)
    ensures
        ({
            let (n, r) = reacted(s, HandheldAction::Skip);
            &&& n.skip_mode == !s.skip_mode
            &&& !s.skip_mode ==> !n.auto_mode
            &&& s.skip_mode ==> n.auto_mode == s.auto_mode
            &&& n.lines == s.lines
            &&& n.current_index == s.current_index
            &&& n.mode == s.mode
            &&& n.current_background == s.current_background
            &&& n.ui_visible == s.ui_visible
            &&& n.selected_choice == s.selected_choice
            &&& !r.quit && r.redraw && !r.restart_timer
        }),
{
}

/// HideUi flips only the interface's visibility.
pub proof fn law_hide_ui_flips_visibility(s: SceneState)
    ensures
        reacted(s, HandheldAction::HideUi).0 == (SceneState { ui_visible: !s.ui_visible, ..s }),
        reacted(s, HandheldAction::HideUi).1.redraw,
        !reacted(s, HandheldAction::HideUi).1.quit,
{
}

/// Only Quit stops the runner, and it leaves the scene as it was.
pub proof fn law_only_quit_stops(s: SceneState, a: HandheldAction)
    ensures
        reacted(s, a).1.quit <==> a == HandheldAction::Quit,
        a == HandheldAction::Quit ==> reacted(s, a).0 == s,
{
}

/// Up and Down move only the choice cursor, by one entry within the
/// current line's choices, and do nothing outside a choice menu.
pub proof fn law_cursor_moves(s: SceneState)
    ensures
        s.mode != SceneMode::ChoiceMenu ==> reacted(s, HandheldAction::Up).0 == s && reacted(
            s,
            HandheldAction::Down,
        ).0 == s,
        s.mode == SceneMode::ChoiceMenu && s.in_choices() && s.selected_choice > 0 ==> reacted(
            s,
            HandheldAction::Up,
        ).0 == (SceneState { selected_choice: (s.selected_choice - 1) as usize, ..s }),
        s.mode == SceneMode::ChoiceMenu && s.in_choices() && s.selected_choice + 1 < s.choice_count()
            ==> reacted(s, HandheldAction::Down).0 == (SceneState {
            selected_choice: (s.selected_choice + 1) as usize,
            ..s
        }),
        s.selected_choice == 0 ==> reacted(s, HandheldAction::Up).0 == s,
{
}

/// Next moves one line forward; in a dialogue at the last line it goes
/// back to the first. Rollback moves one line back, and at the first line
/// changes nothing and does not redraw. The flags stay as they were.
pub proof fn law_next_and_rollback(s: SceneState)
    requires
        s.current_index < usize::MAX,
    ensures
        s.current_index + 1 < s.lines@.len() ==> reacted(s, HandheldAction::Next).0.current_index
            == s.current_index + 1,
        s.mode == SceneMode::Dialogue && s.current_index + 1 >= s.lines@.len() ==> reacted(
            s,
            HandheldAction::Next,
        ).0 == (SceneState { current_index: 0, ..s }),
        s.current_index > 0 ==> reacted(s, HandheldAction::Rollback).0.current_index
            == s.current_index - 1 && reacted(s, HandheldAction::Rollback).1.redraw,
        s.current_index == 0 ==> reacted(s, HandheldAction::Rollback).0 == s && !reacted(
            s,
            HandheldAction::Rollback,
        ).1.redraw,
        reacted(s, HandheldAction::Next).0.auto_mode == s.auto_mode,
        reacted(s, HandheldAction::Next).0.skip_mode == s.skip_mode,
        reacted(s, HandheldAction::Next).0.ui_visible == s.ui_visible,
        reacted(s, HandheldAction::Next).0.lines == s.lines,
        reacted(s, HandheldAction::Rollback).0.auto_mode == s.auto_mode,
        reacted(s, HandheldAction::Rollback).0.skip_mode == s.skip_mode,
        reacted(s, HandheldAction::Rollback).0.lines == s.lines,
{
}

/// Runs the skip and auto-advance timers for one turn; `auto_due` says
/// whether the auto-advance delay has passed.
pub fn advance_timers(scene: &mut SceneState, auto_due: bool) -> (r: Reaction)
    requires
        old(scene).skip_mode || (old(scene).auto_mode && auto_due) ==> old(scene).current_index
            < usize::MAX,
    ensures
        (*final(scene), r) == ticked(*old(scene), auto_due),
{
    if scene.skip_mode {
        if scene.advance() {
            Reaction { quit: false, redraw: true, restart_timer: false }
        } else {
            scene.skip_mode = false;
            Reaction { quit: false, redraw: false, restart_timer: false }
        }
    } else if scene.auto_mode && auto_due {
        if scene.advance() {
            Reaction { quit: false, redraw: true, restart_timer: true }
        } else {
            scene.auto_mode = false;
            Reaction { quit: false, redraw: false, restart_timer: false }
        }
    } else {
        Reaction { quit: false, redraw: false, restart_timer: false }
    }
}


/// The load priority of a compiled script, by its lower-cased path: the
/// first day (`d1_1`) first, then the start and prologue, Korean event
/// translations, other Korean translations, events and story, everything
/// else, and patches last.
pub open spec fn script_priority(path: Seq<char>) -> int {
    let l = lowercase(path);
    if has_infix(l, "d1_1"@) {
        0
    } else if has_infix(l, "start"@) || has_infix(l, "prologue"@) {
        1
    } else if has_infix(l, "tl/korean"@) && has_infix(l, "events"@) {
        2
    } else if has_infix(l, "tl/korean"@) {
        3
    } else if has_infix(l, "events"@) || has_infix(l, "story"@) {
        4
    } else if has_infix(l, "patches"@) {
        6
    } else {
        5
    }
}

/// The paths of priority `k`, in their order.
pub open spec fn with_priority(paths: Seq<Seq<char>>, k: int) -> Seq<Seq<char>>
    decreases paths.len(),
{
    if paths.len() == 0 {
        seq![]
    } else if script_priority(paths.last()) == k {
        with_priority(paths.drop_last(), k).push(paths.last())
    } else {
        with_priority(paths.drop_last(), k)
    }
}

/// The paths of priority `from` to 6, each priority group in input order:
/// what a stable sort by priority gives.
pub open spec fn by_priority(paths: Seq<Seq<char>>, from: int) -> Seq<Seq<char>>
    decreases 7 - from,
{
    if from < 0 || from > 6 {
        seq![]
    } else {
        with_priority(paths, from) + by_priority(paths, from + 1)
    }
}

/// Every path of `with_priority(paths, k)` has priority `k`.
proof fn lemma_with_priority_all(paths: Seq<Seq<char>>, k: int)
    ensures
        forall|i: int|
            0 <= i < with_priority(paths, k).len() ==> script_priority(#[trigger] with_priority(paths, k)[i]) == k,
    decreases paths.len(),
{
    if paths.len() > 0 {
        lemma_with_priority_all(paths.drop_last(), k);
        let w0 = with_priority(paths.drop_last(), k);
        let w = with_priority(paths, k);
        assert forall|i: int| 0 <= i < w.len() implies script_priority(#[trigger] w[i]) == k by {
            if i < w0.len() {
                assert(w[i] == w0[i]);
            }
        }
    }
}

/// No path has a priority outside 0 to 6.
proof fn lemma_with_priority_out(paths: Seq<Seq<char>>, k: int)
    requires
        k < 0 || k > 6,
    ensures
        with_priority(paths, k) == Seq::<Seq<char>>::empty(),
    decreases paths.len(),
{
    if paths.len() > 0 {
        lemma_with_priority_out(paths.drop_last(), k);
    }
}

/// The priorities in `by_priority(paths, from)` lie between `from` and 6
/// and never decrease.
proof fn lemma_by_priority_sorted(paths: Seq<Seq<char>>, from: int)
    requires
        0 <= from <= 7,
    ensures
        forall|i: int|
            0 <= i < by_priority(paths, from).len() ==> from <= script_priority(
                #[trigger] by_priority(paths, from)[i],
            ) <= 6,
        forall|i: int, j: int|
            0 <= i < j < by_priority(paths, from).len() ==> script_priority(
                #[trigger] by_priority(paths, from)[i],
            ) <= script_priority(#[trigger] by_priority(paths, from)[j]),
    decreases 7 - from,
{
    if from <= 6 {
        lemma_by_priority_sorted(paths, from + 1);
        lemma_with_priority_all(paths, from);
        let a = with_priority(paths, from);
        let b = by_priority(paths, from + 1);
        let r = by_priority(paths, from);
        assert(r == a + b);
        assert forall|i: int| 0 <= i < r.len() implies from <= script_priority(#[trigger] r[i]) <= 6 by {
            if i < a.len() {
                assert(r[i] == a[i]);
            } else {
                assert(r[i] == b[i - a.len()]);
            }
        }
        assert forall|i: int, j: int| 0 <= i < j < r.len() implies script_priority(#[trigger] r[i])
            <= script_priority(#[trigger] r[j]) by {
            if j < a.len() {
                assert(r[i] == a[i] && r[j] == a[j]);
            } else if i < a.len() {
                assert(r[i] == a[i] && r[j] == b[j - a.len()]);
            } else {
                assert(r[i] == b[i - a.len()] && r[j] == b[j - a.len()]);
            }
        }
    }
}

/// Taking the paths of a priority from a concatenation.
proof fn lemma_with_priority_concat(a: Seq<Seq<char>>, b: Seq<Seq<char>>, k: int)
    ensures
        with_priority(a + b, k) == with_priority(a, k) + with_priority(b, k),
    decreases b.len(),
{
    if b.len() == 0 {
        assert(a + b =~= a);
        assert(with_priority(a, k) + with_priority(b, k) =~= with_priority(a, k));
    } else {
        lemma_with_priority_concat(a, b.drop_last(), k);
        assert((a + b).drop_last() =~= a + b.drop_last());
        assert((a + b).last() == b.last());
        if script_priority(b.last()) == k {
            assert(with_priority(a, k) + with_priority(b, k) =~= (with_priority(a, k) + with_priority(
                b.drop_last(),
                k,
            )).push(b.last()));
        }
    }
}

/// Taking the paths of a priority twice.
proof fn lemma_with_priority_twice(paths: Seq<Seq<char>>, j: int, k: int)
    ensures
        with_priority(with_priority(paths, j), k) == if j == k {
            with_priority(paths, k)
        } else {
            Seq::<Seq<char>>::empty()
        },
    decreases paths.len(),
{
    if paths.len() > 0 {
        lemma_with_priority_twice(paths.drop_last(), j, k);
        if script_priority(paths.last()) == j {
            let w = with_priority(paths, j);
            assert(w.drop_last() == with_priority(paths.drop_last(), j));
            assert(w.last() == paths.last());
        }
    }
}

/// The paths of priority `k` in `by_priority(paths, from)`.
proof fn lemma_with_priority_by(paths: Seq<Seq<char>>, from: int, k: int)
    requires
        0 <= from <= 7,
    ensures
        with_priority(by_priority(paths, from), k) == if from <= k <= 6 {
            with_priority(paths, k)
        } else {
            Seq::<Seq<char>>::empty()
        },
    decreases 7 - from,
{
    if from <= 6 {
        lemma_with_priority_by(paths, from + 1, k);
        lemma_with_priority_concat(with_priority(paths, from), by_priority(paths, from + 1), k);
        lemma_with_priority_twice(paths, from, k);
        if from == k {
            assert(with_priority(paths, k) + Seq::<Seq<char>>::empty() =~= with_priority(paths, k));
        } else if from < k && k <= 6 {
            assert(Seq::<Seq<char>>::empty() + with_priority(paths, k) =~= with_priority(paths, k));
        } else {
            assert(Seq::<Seq<char>>::empty() + Seq::<Seq<char>>::empty() =~= Seq::<Seq<char>>::empty());
        }
    } else {
        assert(with_priority(Seq::<Seq<char>>::empty(), k) =~= Seq::<Seq<char>>::empty());
    }
}

/// Every path has a priority from 0 to 6.
proof fn lemma_priority_range(path: Seq<char>)
    ensures
        0 <= script_priority(path) <= 6,
{
}

/// Adding a path at the end adds it to the groups from its priority down.
proof fn lemma_by_priority_push(paths: Seq<Seq<char>>, x: Seq<char>, from: int)
    requires
        0 <= from <= 7,
    ensures
        by_priority(paths.push(x), from).to_multiset() == if from <= script_priority(x) {
            by_priority(paths, from).to_multiset().insert(x)
        } else {
            by_priority(paths, from).to_multiset()
        },
    decreases 7 - from,
{
    broadcast use vstd::seq_lib::group_to_multiset_ensures, vstd::seq_lib::lemma_multiset_commutative;

    lemma_priority_range(x);
    if from <= 6 {
        lemma_by_priority_push(paths, x, from + 1);
        let p = paths.push(x);
        assert(p.drop_last() =~= paths);
        assert(p.last() == x);
        let a = with_priority(paths, from);
        let b = by_priority(paths, from + 1);
        if script_priority(x) == from {
            assert(with_priority(p, from) == a.push(x));
            assert(a.push(x).to_multiset() =~= a.to_multiset().insert(x));
            assert((a.push(x) + by_priority(p, from + 1)).to_multiset() =~= a.push(x).to_multiset().add(
                by_priority(p, from + 1).to_multiset(),
            ));
            assert((a + b).to_multiset() =~= a.to_multiset().add(b.to_multiset()));
            assert(by_priority(p, from).to_multiset() =~= by_priority(paths, from).to_multiset().insert(x));
        } else {
            assert(with_priority(p, from) == a);
            assert((a + by_priority(p, from + 1)).to_multiset() =~= a.to_multiset().add(
                by_priority(p, from + 1).to_multiset(),
            ));
            assert((a + b).to_multiset() =~= a.to_multiset().add(b.to_multiset()));
        }
    }
}

/// The load order holds the same paths as its input.
proof fn lemma_by_priority_multiset(paths: Seq<Seq<char>>)
    ensures
        by_priority(paths, 0).to_multiset() == paths.to_multiset(),
    decreases paths.len(),
{
    broadcast use vstd::seq_lib::group_to_multiset_ensures;

    if paths.len() == 0 {
        reveal_with_fuel(by_priority, 8);
        assert(by_priority(paths, 0) =~= Seq::<Seq<char>>::empty());
    } else {
        let q = paths.drop_last();
        let x = paths.last();
        lemma_by_priority_multiset(q);
        lemma_by_priority_push(q, x, 0);
        lemma_priority_range(x);
        assert(q.push(x) =~= paths);
    }
}

/// The scripts' load order is a stable sort by priority: it holds the same
/// paths as its input, their priorities never decrease, and the paths of
/// each priority keep their input order.
pub proof fn law_order_is_stable_sort(paths: Seq<Seq<char>>)
    ensures
        by_priority(paths, 0).to_multiset() == paths.to_multiset(),
        forall|i: int, j: int|
            0 <= i < j < by_priority(paths, 0).len() ==> script_priority(
                #[trigger] by_priority(paths, 0)[i],
            ) <= script_priority(#[trigger] by_priority(paths, 0)[j]),
        forall|k: int| with_priority(#[trigger] by_priority(paths, 0), k) == with_priority(paths, k),
{
    lemma_by_priority_multiset(paths);
    lemma_by_priority_sorted(paths, 0);
    assert forall|k: int| with_priority(#[trigger] by_priority(paths, 0), k) == with_priority(paths, k) by {
        lemma_with_priority_by(paths, 0, k);
        if k < 0 || k > 6 {
            lemma_with_priority_out(paths, k);
        }
    }
}

/// The priority of each kind of script, by the keywords its lower-cased
/// path holds: the first day 0; the start or prologue 1; a Korean event
/// translation 2; another Korean translation 3; events or story 4;
/// patches 6; a path with none of these 5.
pub proof fn law_priority_levels(path: Seq<char>)
    ensures
        ({
            let l = lowercase(path);
            let d = has_infix(l, "d1_1"@);
            let st = has_infix(l, "start"@) || has_infix(l, "prologue"@);
            let ko = has_infix(l, "tl/korean"@);
            let ev = has_infix(l, "events"@);
            let sto = has_infix(l, "story"@);
            let pa = has_infix(l, "patches"@);
            &&& d ==> script_priority(path) == 0
            &&& !d && st ==> script_priority(path) == 1
            &&& !d && !st && ko && ev ==> script_priority(path) == 2
            &&& !d && !st && ko && !ev ==> script_priority(path) == 3
            &&& !d && !st && !ko && (ev || sto) ==> script_priority(path) == 4
            &&& !d && !st && !ko && !ev && !sto && pa ==> script_priority(path) == 6
            &&& !d && !st && !ko && !ev && !sto && !pa ==> script_priority(path) == 5
        }),
{
}

/// A Korean translation script that is neither of the first day, the start,
/// the prologue nor events loads before every script that mentions no
/// keyword at all: in the load order, every copy of the first comes before
/// every copy of the second.
pub proof fn law_translation_before_plain(paths: Seq<Seq<char>>, a: Seq<char>, b: Seq<char>)
    requires
        has_infix(lowercase(a), "tl/korean"@),
        !has_infix(lowercase(a), "d1_1"@),
        !has_infix(lowercase(a), "start"@),
        !has_infix(lowercase(a), "prologue"@),
        !has_infix(lowercase(a), "events"@),
        !has_infix(lowercase(b), "d1_1"@),
        !has_infix(lowercase(b), "start"@),
        !has_infix(lowercase(b), "prologue"@),
        !has_infix(lowercase(b), "tl/korean"@),
        !has_infix(lowercase(b), "events"@),
        !has_infix(lowercase(b), "story"@),
        !has_infix(lowercase(b), "patches"@),
    ensures
        script_priority(a) == 3,
        script_priority(b) == 5,
        forall|i: int, j: int|
            0 <= i < by_priority(paths, 0).len() && 0 <= j < by_priority(paths, 0).len()
                && #[trigger] by_priority(paths, 0)[i] == a && #[trigger] by_priority(paths, 0)[j]
                == b ==> i < j,
{
    law_order_is_stable_sort(paths);
    let r = by_priority(paths, 0);
    assert forall|i: int, j: int|
        0 <= i < r.len() && 0 <= j < r.len() && #[trigger] r[i] == a && #[trigger] r[j] == b
            implies i < j by {
        if j < i {
            assert(script_priority(r[j]) <= script_priority(r[i]));
        }
    }
}

/// Whether `t` contains the text of `p`.
fn mentions(t: &[char], p: &str) -> (r: bool)
    ensures
        r == has_infix(t@, p@),
{
    contains(t, &str_chars(p))
}

/// The load priority of a compiled script.
pub fn script_priority_of(path: &str) -> (r: u32)
    ensures
        r == script_priority(path@),
{
    let lower = to_lowercase(path);
    let l = str_chars(lower.as_str());
    if mentions(&l, "d1_1") {
        0
    } else if mentions(&l, "start") || mentions(&l, "prologue") {
        1
    } else if mentions(&l, "tl/korean") && mentions(&l, "events") {
        2
    } else if mentions(&l, "tl/korean") {
        3
    } else if mentions(&l, "events") || mentions(&l, "story") {
        4
    } else if mentions(&l, "patches") {
        6
    } else {
        5
    }
}

/// Appends the paths of priority `k`, in their order.
fn append_priority(paths: &Vec<String>, prio: &Vec<u32>, k: u32, out: &mut Vec<String>)
    requires
        prio@.len() == paths@.len(),
        forall|j: int| 0 <= j < paths@.len() ==> #[trigger] prio@[j] == script_priority(paths@[j]@),
    ensures
        texts(final(out)@) == texts(old(out)@) + with_priority(texts(paths@), k as int),
{
    let ghost all = texts(paths@);
    let ghost before = texts(out@);
    let n = paths.len();
    let mut j: usize = 0;
    assert(all.subrange(0, 0) =~= Seq::<Seq<char>>::empty());
    assert(before + Seq::<Seq<char>>::empty() =~= before);
    while j < n
        invariant
            n == paths@.len(),
            all == texts(paths@),
            prio@.len() == n,
            forall|m: int| 0 <= m < n ==> #[trigger] prio@[m] == script_priority(paths@[m]@),
            j <= n,
            texts(out@) == before + with_priority(all.subrange(0, j as int), k as int),
        decreases n - j,
    {
        assert(all.subrange(0, j + 1).drop_last() =~= all.subrange(0, j as int));
        assert(all.subrange(0, j + 1).last() == paths@[j as int]@);
        if prio[j] == k {
            let ghost old_out = texts(out@);
            let c = paths[j].clone();
            out.push(c);
            assert(texts(out@) =~= old_out.push(paths@[j as int]@));
            assert(with_priority(all.subrange(0, j + 1), k as int) == with_priority(
                all.subrange(0, j as int),
                k as int,
            ).push(paths@[j as int]@));
            assert(texts(out@) =~= before + with_priority(all.subrange(0, j + 1), k as int));
        }
        j += 1;
    }
    assert(all.subrange(0, n as int) =~= all);
}

/// The compiled scripts in load order: stably sorted by priority.
pub fn order_scripts(paths: &Vec<String>) -> (r: Vec<String>)
    ensures
        texts(r@) == by_priority(texts(paths@), 0),
{
    let ghost all = texts(paths@);
    let n = paths.len();
    let mut prio: Vec<u32> = Vec::new();
    let mut i: usize = 0;
    while i < n
        invariant
            n == paths@.len(),
            i <= n,
            prio@.len() == i,
            forall|j: int| 0 <= j < i ==> #[trigger] prio@[j] == script_priority(paths@[j]@),
        decreases n - i,
    {
        prio.push(script_priority_of(paths[i].as_str()));
        i += 1;
    }
    let mut out: Vec<String> = Vec::new();
    let mut k: u32 = 0;
    assert(texts(out@) =~= Seq::<Seq<char>>::empty());
    while k <= 6
        invariant
            n == paths@.len(),
            all == texts(paths@),
            prio@.len() == n,
            forall|j: int| 0 <= j < n ==> #[trigger] prio@[j] == script_priority(paths@[j]@),
            k <= 7,
            texts(out@) + by_priority(all, k as int) == by_priority(all, 0),
        decreases 7 - k,
    {
        let ghost before = texts(out@);
        append_priority(paths, &prio, k, &mut out);
        assert(by_priority(all, k as int) == with_priority(all, k as int) + by_priority(all, k + 1));
        assert(texts(out@) + by_priority(all, k + 1) =~= before + by_priority(all, k as int));
        k += 1;
    }
    assert(by_priority(all, 7) =~= Seq::<Seq<char>>::empty());
    assert(texts(out@) =~= texts(out@) + by_priority(all, 7));
    out
}

/// Whether a compiled script holds story text: its path mentions
/// `events`, `story` or `tl/korean`.
pub fn is_story_script(path: &str) -> (r: bool)
    ensures
        r == (has_infix(path@, "events"@) || has_infix(path@, "story"@) || has_infix(
            path@,
            "tl/korean"@,
        )),
{
    let cs = str_chars(path);
    mentions(&cs, "events") || mentions(&cs, "story") || mentions(&cs, "tl/korean")
}


/// Whether a path names a compiled script: it ends in `.rpyc`.
pub fn is_compiled_script(path: &str) -> (r: bool)
    ensures
        r == has_suffix(path@, ".rpyc"@),
{
    ends_in(&str_chars(path), ".rpyc")
}

/// Whether a path names a font the runner can try: it ends in `.ttf` or
/// `.otf`.
pub fn is_font_file(path: &str) -> (r: bool)
    ensures
        r == (has_suffix(path@, ".ttf"@) || has_suffix(path@, ".otf"@)),
{
    let cs = str_chars(path);
    ends_in(&cs, ".ttf") || ends_in(&cs, ".otf")
}

/// Whether a path names an image the runner shows: its lower-cased form
/// ends in `.avif`, `.png` or `.jpg`.
pub open spec fn is_image_path(p: Seq<char>) -> bool {
    let l = lowercase(p);
    has_suffix(l, ".avif"@) || has_suffix(l, ".png"@) || has_suffix(l, ".jpg"@)
}

/// The last position of `key` among the pairs' first components.
pub open spec fn key_index(pairs: Seq<(Seq<char>, Seq<char>)>, key: Seq<char>) -> Option<int>
    decreases pairs.len(),
{
    if pairs.len() == 0 {
        None
    } else if pairs.last().0 == key {
        Some(pairs.len() - 1)
    } else {
        key_index(pairs.drop_last(), key)
    }
}

/// The pairs with `(k, v)` replacing the pair of key `k`, or added last.
pub open spec fn put(pairs: Seq<(Seq<char>, Seq<char>)>, k: Seq<char>, v: Seq<char>) -> Seq<(Seq<char>, Seq<char>)> {
    match key_index(pairs, k) {
        Some(i) => pairs.update(i, (k, v)),
        None => pairs.push((k, v)),
    }
}

/// The image index of a file list: each image file under the lower-cased
/// stem of its name; of several files with one stem, the last one listed.
pub open spec fn image_index_of(files: Seq<Seq<char>>) -> Seq<(Seq<char>, Seq<char>)>
    decreases files.len(),
{
    if files.len() == 0 {
        seq![]
    } else {
        let idx = image_index_of(files.drop_last());
        let f = files.last();
        if is_image_path(f) {
            match path_stem(f) {
                Some(stem) => put(idx, lowercase(stem), f),
                None => idx,
            }
        } else {
            idx
        }
    }
}

/// The pairs of strings as texts.
pub open spec fn pair_texts(v: Seq<(String, String)>) -> Seq<(Seq<char>, Seq<char>)> {
    v.map_values(|p: (String, String)| (p.0@, p.1@))
}

/// Image files of the game by the lower-cased stem of their names, as the
/// runner looks up scene backgrounds.
pub struct ImageIndex {
    entries: Vec<(String, String)>,
}

impl View for ImageIndex {
    type V = Seq<(Seq<char>, Seq<char>)>;

    closed spec fn view(&self) -> Seq<(Seq<char>, Seq<char>)> {
        pair_texts(self.entries@)
    }
}

/// Whether `t` ends with the text of `p`.
fn ends_in(t: &[char], p: &str) -> (r: bool)
    ensures
        r == has_suffix(t@, p@),
{
    ends_with(t, &str_chars(p))
}

/// Whether a path names an image the runner shows.
pub fn is_image_file(p: &str) -> (r: bool)
    ensures
        r == is_image_path(p@),
{
    let lower = to_lowercase(p);
    let l = str_chars(lower.as_str());
    ends_in(&l, ".avif") || ends_in(&l, ".png") || ends_in(&l, ".jpg")
}

/// A key lies in the pairs where `key_index` says.
pub proof fn lemma_key_index(pairs: Seq<(Seq<char>, Seq<char>)>, key: Seq<char>)
    ensures
        key_index(pairs, key) matches Some(i) ==> 0 <= i < pairs.len() && pairs[i].0 == key,
    decreases pairs.len(),
{
    if pairs.len() > 0 && pairs.last().0 != key {
        lemma_key_index(pairs.drop_last(), key);
    }
}

impl ImageIndex {
    /// The position of `key`, searching from the end.
    fn position(&self, key: &String) -> (r: Option<usize>)
        ensures
            match key_index(self@, key@) {
                Some(i) => r matches Some(k) && k as int == i,
                None => r is None,
            },
            r matches Some(k) ==> k < self.entries@.len(),
    {
        let ghost idx = self@;
        let mut k = self.entries.len();
        assert(idx.subrange(0, k as int) =~= idx);
        while k > 0
            invariant
                k <= self.entries@.len(),
                idx == self@,
                idx == pair_texts(self.entries@),
                key_index(idx, key@) == key_index(idx.subrange(0, k as int), key@),
            decreases k,
        {
            assert(idx.subrange(0, k as int).drop_last() =~= idx.subrange(0, k - 1));
            if self.entries[k - 1].0 == *key {
                assert(key_index(idx.subrange(0, k as int), key@) == Some((k - 1) as int));
                return Some(k - 1);
            }
            k -= 1;
        }
        None
    }

    /// The index of the image files in a file list.
    pub fn build(files: &Vec<String>) -> (r: ImageIndex)
        ensures
            r@ == image_index_of(texts(files@)),
    {
        let ghost all = texts(files@);
        let mut index = ImageIndex { entries: Vec::new() };
        let mut i: usize = 0;
        assert(index@ =~= image_index_of(all.subrange(0, 0)));
        while i < files.len()
            invariant
                i <= files@.len(),
                all == texts(files@),
                index@ == image_index_of(all.subrange(0, i as int)),
            decreases files@.len() - i,
        {
            assert(all.subrange(0, i + 1).drop_last() =~= all.subrange(0, i as int));
            assert(all.subrange(0, i + 1).last() == files@[i as int]@);
            let f = &files[i];
            if is_image_file(f.as_str()) {
                match file_stem(f.as_str()) {
                    Some(stem) => {
                        let base = to_lowercase(stem.as_str());
                        index.put(base, f.clone());
                    },
                    None => {},
                }
            }
            i += 1;
        }
        assert(all.subrange(0, files@.len() as int) =~= all);
        index
    }

    /// Puts a pair in place of the pair of its key, or last.
    fn put(&mut self, key: String, value: String)
        ensures
            final(self)@ == put(old(self)@, key@, value@),
    {
        let ghost before = self@;
        match self.position(&key) {
            Some(k) => {
                let ghost kv = (key@, value@);
                self.entries.set(k, (key, value));
                assert(self@ =~= before.update(k as int, kv));
            },
            None => {
                let ghost kv = (key@, value@);
                self.entries.push((key, value));
                assert(self@ =~= before.push(kv));
            },
        }
    }

    /// The set of the stems in the index, as the extractor matches image
    /// names against it.
    pub fn known_images(&self) -> (r: HashSet<String>)
        ensures
            set_texts(r) == self@.map_values(|p: (Seq<char>, Seq<char>)| p.0).to_set(),
    {
        let ghost keys = self@.map_values(|p: (Seq<char>, Seq<char>)| p.0);
        let mut set = empty_text_set();
        let mut k: usize = 0;
        while k < self.entries.len()
            invariant
                k <= self.entries@.len(),
                self@ == pair_texts(self.entries@),
                keys == self@.map_values(|p: (Seq<char>, Seq<char>)| p.0),
                set_texts(set) == keys.subrange(0, k as int).to_set(),
            decreases self.entries@.len() - k,
        {
            let ghost before = set_texts(set);
            insert_text(&mut set, self.entries[k].0.clone());
            assert(keys[k as int] == self.entries@[k as int].0@);
            assert(keys.subrange(0, k + 1) =~= keys.subrange(0, k as int).push(keys[k as int]));
            proof {
                keys.subrange(0, k as int).lemma_push_to_set_commute(keys[k as int]);
            }
            assert(set_texts(set) =~= keys.subrange(0, k + 1).to_set());
            k += 1;
        }
        assert(keys.subrange(0, keys.len() as int) =~= keys);
        set
    }

    /// The stems in the index, in its order.
    pub fn base_names(&self) -> (r: Vec<String>)
        ensures
            r@.len() == self@.len(),
            forall|i: int| 0 <= i < r@.len() ==> #[trigger] r@[i]@ == self@[i].0,
    {
        let mut out: Vec<String> = Vec::new();
        let mut k: usize = 0;
        while k < self.entries.len()
            invariant
                k <= self.entries@.len(),
                self@ == pair_texts(self.entries@),
                out@.len() == k,
                forall|i: int| 0 <= i < k ==> #[trigger] out@[i]@ == self@[i].0,
            decreases self.entries@.len() - k,
        {
            out.push(self.entries[k].0.clone());
            k += 1;
        }
        out
    }

    /// The image file for a stem (already lower-cased), if any.
    pub fn path_for(&self, base: &String) -> (r: Option<String>)
        ensures
            match key_index(self@, base@) {
                Some(i) => r matches Some(p) && p@ == self@[i].1,
                None => r is None,
            },
    {
        proof {
            lemma_key_index(self@, base@);
        }
        match self.position(base) {
            Some(k) => {
                assert(self@[k as int] == (self.entries@[k as int].0@, self.entries@[k as int].1@));
                Some(self.entries[k].1.clone())
            },
            None => None,
        }
    }

    /// The image file showing a background tag: the file whose stem is the
    /// lower-cased tag, or else the first image file in `all_files` whose
    /// lower-cased path contains the lower-cased tag.
    pub fn find_background(&self, tag: &str, all_files: &Vec<String>) -> (r: Option<String>)
        ensures
            match key_index(self@, lowercase(tag@)) {
                Some(i) => r matches Some(p) && p@ == self@[i].1,
                None => match first_match(texts(all_files@), lowercase(tag@)) {
                    Some(j) => r matches Some(p) && p@ == all_files@[j]@,
                    None => r is None,
                },
            },
    {
        let pattern = to_lowercase(tag);
        match self.path_for(&pattern) {
            Some(p) => {
                return Some(p);
            },
            None => {},
        }
        let pat = str_chars(pattern.as_str());
        let ghost all = texts(all_files@);
        let mut j: usize = 0;
        while j < all_files.len()
            invariant
                j <= all_files@.len(),
                all == texts(all_files@),
                pat@ == lowercase(tag@),
                key_index(self@, lowercase(tag@)) is None,
                first_match(all, pat@) == first_match_from(all, pat@, j as int),
            decreases all_files@.len() - j,
        {
            let f = &all_files[j];
            assert(all[j as int] == f@);
            if is_image_file(f.as_str()) {
                let lower = to_lowercase(f.as_str());
                if contains(&str_chars(lower.as_str()), &pat) {
                    return Some(f.clone());
                }
            }
            j += 1;
        }
        None
    }
}

/// The first position from `j` on of an image path containing `pattern`
/// once lower-cased.
pub open spec fn first_match_from(files: Seq<Seq<char>>, pattern: Seq<char>, j: int) -> Option<int>
    decreases files.len() - j,
{
    if j < 0 || j >= files.len() {
        None
    } else if is_image_path(files[j]) && has_infix(lowercase(files[j]), pattern) {
        Some(j)
    } else {
        first_match_from(files, pattern, j + 1)
    }
}

/// The first position of an image path containing `pattern` once
/// lower-cased.
pub open spec fn first_match(files: Seq<Seq<char>>, pattern: Seq<char>) -> Option<int> {
    first_match_from(files, pattern, 0)
}

/// The background tag the current line asks for when it differs from the
/// one last shown.
pub fn background_to_load(scene: &SceneState, last_tag: &Option<String>) -> (r: Option<String>)
    ensures
        match (if scene.current_index < scene.lines@.len() {
            scene.lines@[scene.current_index as int].background
        } else {
            None
        }) {
            Some(b) => if last_tag matches Some(l) && l@ == b@ {
                r is None
            } else {
                r matches Some(t) && t@ == b@
            },
            None => r is None,
        },
{
    match scene.current_line() {
        Some(line) => match &line.background {
            Some(b) => {
                let same = match last_tag {
                    Some(l) => *l == *b,
                    None => false,
                };
                if same {
                    None
                } else {
                    Some(b.clone())
                }
            },
            None => None,
        },
        None => None,
    }
}

} // verus!
