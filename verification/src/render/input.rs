//! Turning SDL input events into player actions.

use vstd::prelude::*;

verus! {

pub const SDL_QUIT: u32 = 0x100;
pub const SDL_KEYDOWN: u32 = 0x300;
pub const SDL_MOUSEBUTTONDOWN: u32 = 0x401;
pub const SDL_JOYBUTTONDOWN: u32 = 0x603;
pub const SDL_CONTROLLERBUTTONDOWN: u32 = 0x653;
pub const SDL_FINGERDOWN: u32 = 0x700;

pub const SDLK_ESCAPE: i32 = 27;
pub const SDLK_RETURN: i32 = 13;
pub const SDLK_SPACE: i32 = 32;
pub const SDLK_PAGEUP: i32 = 1073741899;
pub const SDLK_UP: i32 = 1073741906;
pub const SDLK_DOWN: i32 = 1073741905;
pub const SDLK_TAB: i32 = 9;
pub const SDLK_Q: i32 = 113;
pub const SDLK_H: i32 = 104;
pub const SDLK_M: i32 = 109;

/// A player action, from a gamepad button, a key, a tap or a click.
#[derive(Debug, Clone, Copy, PartialEq, Eq, Structural)]
pub enum HandheldAction {
    Next,
    Rollback,
    Menu,
    HideUi,
    Skip,
    Up,
    Down,
    Quit,
}

/// The action of a key: Enter and Space advance, Page Up rolls back, H
/// hides the interface, M opens the menu, Tab skips, the arrows move the
/// cursor, Escape and Q quit, and any other key advances.
pub open spec fn key_action(sym: i32) -> HandheldAction {
    if sym == SDLK_RETURN || sym == SDLK_SPACE {
        HandheldAction::Next
    } else if sym == SDLK_PAGEUP {
        HandheldAction::Rollback
    } else if sym == SDLK_H {
        HandheldAction::HideUi
    } else if sym == SDLK_M {
        HandheldAction::Menu
    } else if sym == SDLK_TAB {
        HandheldAction::Skip
    } else if sym == SDLK_UP {
        HandheldAction::Up
    } else if sym == SDLK_DOWN {
        HandheldAction::Down
    } else if sym == SDLK_ESCAPE || sym == SDLK_Q {
        HandheldAction::Quit
    } else {
        HandheldAction::Next
    }
}

/// The action of a joystick or controller button: A, cross and start (0,
/// 7, 11, 12) advance, B and circle (1, 13) roll back, X (2) hides the
/// interface, Y (3) opens the menu, L1 (4, 9) skips, select and back (6,
/// 10) quit, and any other button advances.
pub open spec fn button_action(b: u8) -> HandheldAction {
    if b == 0 || b == 7 || b == 11 || b == 12 {
        HandheldAction::Next
    } else if b == 1 || b == 13 {
        HandheldAction::Rollback
    } else if b == 2 {
        HandheldAction::HideUi
    } else if b == 3 {
        HandheldAction::Menu
    } else if b == 4 || b == 9 {
        HandheldAction::Skip
    } else if b == 6 || b == 10 {
        HandheldAction::Quit
    } else {
        HandheldAction::Next
    }
}

/// The action an event asks for, if any: a quit event quits, a key press
/// acts by its key, a touch advances, a left click advances and a right
/// click rolls back, a pad button acts by its button; other events ask
/// for nothing.
pub open spec fn event_action(event_type: u32, sym: i32, button: u8) -> Option<HandheldAction> {
    if event_type == SDL_QUIT {
        Some(HandheldAction::Quit)
    } else if event_type == SDL_KEYDOWN {
        Some(key_action(sym))
    } else if event_type == SDL_FINGERDOWN {
        Some(HandheldAction::Next)
    } else if event_type == SDL_MOUSEBUTTONDOWN {
        if button == 1 {
            Some(HandheldAction::Next)
        } else if button == 3 {
            Some(HandheldAction::Rollback)
        } else {
            None
        }
    } else if event_type == SDL_JOYBUTTONDOWN || event_type == SDL_CONTROLLERBUTTONDOWN {
        Some(button_action(button))
    } else {
        None
    }
}

/// The action of an event: its type, the key symbol of a key event and
/// the button byte of a click or pad event.
pub fn action_for_event(event_type: u32, sym: i32, button: u8) -> (r: Option<HandheldAction>)
    ensures
        r == event_action(event_type, sym, button),
{
    if event_type == SDL_QUIT {
        return Some(HandheldAction::Quit);
    }
    if event_type == SDL_KEYDOWN {
        let a = if sym == SDLK_RETURN || sym == SDLK_SPACE {
            HandheldAction::Next
        } else if sym == SDLK_PAGEUP {
            HandheldAction::Rollback
        } else if sym == SDLK_H {
            HandheldAction::HideUi
        } else if sym == SDLK_M {
            HandheldAction::Menu
        } else if sym == SDLK_TAB {
            HandheldAction::Skip
        } else if sym == SDLK_UP {
            HandheldAction::Up
        } else if sym == SDLK_DOWN {
            HandheldAction::Down
        } else if sym == SDLK_ESCAPE || sym == SDLK_Q {
            HandheldAction::Quit
        } else {
            HandheldAction::Next
        };
        return Some(a);
    }
    if event_type == SDL_FINGERDOWN {
        return Some(HandheldAction::Next);
    }
    if event_type == SDL_MOUSEBUTTONDOWN {
        if button == 1 {
            return Some(HandheldAction::Next);
        } else if button == 3 {
            return Some(HandheldAction::Rollback);
        }
        return None;
    }
    if event_type == SDL_JOYBUTTONDOWN || event_type == SDL_CONTROLLERBUTTONDOWN {
        let a = if button == 0 || button == 7 || button == 11 || button == 12 {
            HandheldAction::Next
        } else if button == 1 || button == 13 {
            HandheldAction::Rollback
        } else if button == 2 {
            HandheldAction::HideUi
        } else if button == 3 {
            HandheldAction::Menu
        } else if button == 4 || button == 9 {
            HandheldAction::Skip
        } else if button == 6 || button == 10 {
            HandheldAction::Quit
        } else {
            HandheldAction::Next
        };
        return Some(a);
    }
    None
}

/// Whether an event asks to quit: a quit event, or Escape or Q pressed.
pub fn is_quit_event(event_type: u32, sym: i32) -> (r: bool)
    ensures
        r == (event_type == SDL_QUIT || (event_type == SDL_KEYDOWN && (sym == SDLK_ESCAPE || sym
            == SDLK_Q))),
{
    event_type == SDL_QUIT || (event_type == SDL_KEYDOWN && (sym == SDLK_ESCAPE || sym == SDLK_Q))
}

/// Joystick and controller buttons act alike, whatever the key field
/// holds: B and circle (1, 13) roll back, X (2) hides the interface, Y (3)
/// opens the menu, L1 (4, 9) skips, select and back (6, 10) quit, and
/// every other button advances; no button moves the cursor.
pub proof fn law_pad_buttons(sym: i32, sym2: i32, b: u8)
    ensures
        event_action(SDL_JOYBUTTONDOWN, sym, b) == event_action(SDL_CONTROLLERBUTTONDOWN, sym2, b),
        event_action(SDL_JOYBUTTONDOWN, sym, b) is Some,
        (event_action(SDL_JOYBUTTONDOWN, sym, b) == Some(HandheldAction::Rollback)) <==> (b == 1
            || b == 13),
        (event_action(SDL_JOYBUTTONDOWN, sym, b) == Some(HandheldAction::HideUi)) <==> (b == 2),
        (event_action(SDL_JOYBUTTONDOWN, sym, b) == Some(HandheldAction::Menu)) <==> (b == 3),
        (event_action(SDL_JOYBUTTONDOWN, sym, b) == Some(HandheldAction::Skip)) <==> (b == 4 || b
            == 9),
        (event_action(SDL_JOYBUTTONDOWN, sym, b) == Some(HandheldAction::Quit)) <==> (b == 6 || b
            == 10),
        (event_action(SDL_JOYBUTTONDOWN, sym, b) == Some(HandheldAction::Next)) <==> !(b == 1 || b
            == 13 || b == 2 || b == 3 || b == 4 || b == 9 || b == 6 || b == 10),
{
}

/// Key presses: Page Up rolls back, H hides the interface, M opens the
/// menu, Tab skips, the arrows move the cursor, Escape and Q quit, and
/// every other key (Enter and Space among them) advances, whatever the
/// button field holds.
pub proof fn law_keys(sym: i32, button: u8, button2: u8)
    ensures
        event_action(SDL_KEYDOWN, sym, button) == event_action(SDL_KEYDOWN, sym, button2),
        event_action(SDL_KEYDOWN, sym, button) is Some,
        event_action(SDL_KEYDOWN, SDLK_RETURN, button) == Some(HandheldAction::Next),
        event_action(SDL_KEYDOWN, SDLK_SPACE, button) == Some(HandheldAction::Next),
        (event_action(SDL_KEYDOWN, sym, button) == Some(HandheldAction::Rollback)) <==> (sym
            == SDLK_PAGEUP),
        (event_action(SDL_KEYDOWN, sym, button) == Some(HandheldAction::HideUi)) <==> (sym
            == SDLK_H),
        (event_action(SDL_KEYDOWN, sym, button) == Some(HandheldAction::Menu)) <==> (sym
            == SDLK_M),
        (event_action(SDL_KEYDOWN, sym, button) == Some(HandheldAction::Skip)) <==> (sym
            == SDLK_TAB),
        (event_action(SDL_KEYDOWN, sym, button) == Some(HandheldAction::Up)) <==> (sym == SDLK_UP),
        (event_action(SDL_KEYDOWN, sym, button) == Some(HandheldAction::Down)) <==> (sym
            == SDLK_DOWN),
        (event_action(SDL_KEYDOWN, sym, button) == Some(HandheldAction::Quit)) <==> (sym
            == SDLK_ESCAPE || sym == SDLK_Q),
        (event_action(SDL_KEYDOWN, sym, button) == Some(HandheldAction::Next)) <==> !(sym
            == SDLK_PAGEUP || sym == SDLK_H || sym == SDLK_M || sym == SDLK_TAB || sym == SDLK_UP
            || sym == SDLK_DOWN || sym == SDLK_ESCAPE || sym == SDLK_Q),
{
}

/// A quit event quits and a touch advances, whatever the other fields
/// hold; a left click advances, a right click rolls back, and other
/// clicks ask for nothing; events of any other type ask for nothing.
pub proof fn law_other_events(event_type: u32, sym: i32, button: u8)
    ensures
        event_action(SDL_QUIT, sym, button) == Some(HandheldAction::Quit),
        event_action(SDL_FINGERDOWN, sym, button) == Some(HandheldAction::Next),
        event_action(SDL_MOUSEBUTTONDOWN, sym, button) == if button == 1 {
            Some(HandheldAction::Next)
        } else if button == 3 {
            Some(HandheldAction::Rollback)
        } else {
            None
        },
        event_type != SDL_QUIT && event_type != SDL_KEYDOWN && event_type != SDL_FINGERDOWN
            && event_type != SDL_MOUSEBUTTONDOWN && event_type != SDL_JOYBUTTONDOWN && event_type
            != SDL_CONTROLLERBUTTONDOWN ==> event_action(event_type, sym, button) is None,
{
}

/// An event asks to quit exactly when `is_quit_event` says so, or when a
/// select or back button is pressed.
pub proof fn law_quit_events(event_type: u32, sym: i32, button: u8)
    ensures
        (event_action(event_type, sym, button) == Some(HandheldAction::Quit)) <==> (event_type
            == SDL_QUIT || (event_type == SDL_KEYDOWN && (sym == SDLK_ESCAPE || sym == SDLK_Q)) || ((
        event_type == SDL_JOYBUTTONDOWN || event_type == SDL_CONTROLLERBUTTONDOWN) && (button == 6
            || button == 10))),
{
}

} // verus!
