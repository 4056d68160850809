//! Choosing the size of the display window.

use vstd::prelude::*;

use crate::text::{parse_u32, parse_u32_chars, str_chars};

verus! {

/// The size of the window: the display mode's, when SDL reports one with a
/// positive width and height; else the `DISPLAY_WIDTH` and `DISPLAY_HEIGHT`
/// that PortMaster sets, when both are there and read as numbers; else the
/// size asked for.
pub open spec fn window_size(
    width: u32,
    height: u32,
    mode: Option<(i32, i32)>,
    env_width: Option<Seq<char>>,
    env_height: Option<Seq<char>>,
) -> (u32, u32) {
    let from_env = match (env_width, env_height) {
        (Some(a), Some(b)) => match (parse_u32(a), parse_u32(b)) {
            (Ok(x), Ok(y)) => Some((x, y)),
            _ => None,
        },
        _ => None,
    };
    match mode {
        Some((w, h)) if w > 0 && h > 0 => (w as u32, h as u32),
        _ => match from_env {
            Some(size) => size,
            None => (width, height),
        },
    }
}

/// The text of an optional string slice.
pub open spec fn opt_chars(o: Option<&str>) -> Option<Seq<char>> {
    match o {
        Some(s) => Some(s@),
        None => None,
    }
}

/// Chooses the size of the window. `mode` is the current display mode's
/// size where SDL reports one; `env_width` and `env_height` are the
/// environment's values where set.
pub fn choose_window_size(
    width: u32,
    height: u32,
    mode: Option<(i32, i32)>,
    env_width: Option<&str>,
    env_height: Option<&str>,
) -> (r: (u32, u32))
    ensures
        r == window_size(width, height, mode, opt_chars(env_width), opt_chars(env_height)),
{
    if let Some((w, h)) = mode {
        if w > 0 && h > 0 {
            return (w as u32, h as u32);
        }
    }
    if let (Some(a), Some(b)) = (env_width, env_height) {
        let pa = parse_u32_chars(&str_chars(a));
        let pb = parse_u32_chars(&str_chars(b));
        if let (Ok(x), Ok(y)) = (pa, pb) {
            return (x, y);
        }
    }
    (width, height)
}

} // verus!
