//! Recovering dialogue from the pickle bytecode of a compiled script.
//!
//! The scanner looks for the pickle opcode `X` (a UTF-8 string with a
//! four-byte little-endian length) and reads each such string; a string
//! that is not well-formed UTF-8 is stepped over. The strings then drive a
//! small state machine: speaker names in quotes, background tags and known
//! image names, and lines of dialogue.

use std::collections::HashSet;
use vstd::prelude::*;
use vstd::string::StringSliceAdditionalSpecFns;
use vstd::utf8::*;

use crate::bytes::{le_u32, read_le_u32};
use crate::engine::scene::{ChoiceItem, ChoiceView, DialogueLine, DialogueView, opt_text};
use crate::strings::{holds_text, lemma_utf8_slice_chars, lowercase, set_texts, to_lowercase, utf8_slice};
use crate::text::{
    contains, ends_with, has_infix, has_prefix, has_suffix, same_chars, starts_with, str_chars, trim,
    trim_bounds,
};
use vstd::string::StrSliceExecFns;

verus! {

broadcast use vstd::string::group_string_axioms;

/// The strings that the scanner reads from `p`, starting at position `i`.
pub open spec fn scan_strings(p: Seq<u8>, i: int) -> Seq<Seq<char>>
    decreases p.len() + 1 - i,
{
    if i < 0 || i >= p.len() {
        seq![]
    } else if p[i] == 0x58u8 && i + 5 <= p.len() {
        let start = i + 5;
        let len = le_u32(p, i + 1);
        if start + len <= p.len() {
            let bytes = p.subrange(start, start + len);
            if valid_utf8(bytes) {
                seq![decode_utf8(bytes)] + scan_strings(p, start + len)
            } else {
                scan_strings(p, start + len)
            }
        } else {
            scan_strings(p, start + 1)
        }
    } else {
        scan_strings(p, i + 1)
    }
}

/// `char::is_ascii_alphanumeric`, or an underscore.
pub open spec fn is_word_char(c: char) -> bool {
    ('a' <= c <= 'z') || ('A' <= c <= 'Z') || ('0' <= c <= '9') || c == '_'
}

/// Whether a trimmed string names a background: it mentions a background
/// or starts like a scene tag, and is short and free of path, space and
/// dot characters, and is none of a few reserved words.
pub open spec fn is_bg_tag(t: Seq<char>) -> bool {
    &&& (has_infix(t, "background"@) || has_infix(t, "_bg"@) || has_prefix(t, "d1_"@)
        || has_prefix(t, "d2_"@) || has_prefix(t, "d3_"@) || has_prefix(t, "d4_"@) || has_prefix(
        t,
        "d5_"@,
    ) || has_prefix(t, "d6_"@) || has_prefix(t, "d7_"@) || has_prefix(t, "a_"@) || has_prefix(
        t,
        "b_"@,
    ) || has_prefix(t, "c_"@) || has_prefix(t, "d_"@) || has_prefix(t, "e_"@) || has_prefix(
        t,
        "f_"@,
    ) || has_prefix(t, "g_"@))
    &&& encode_utf8(t).len() <= 40
    &&& !has_infix(t, "/"@)
    &&& !has_infix(t, " "@)
    &&& !has_infix(t, "."@)
    &&& !has_prefix(t, "crenpy"@)
    &&& t != "version"@
    &&& t != "unlocked"@
}

/// Whether a trimmed string is code, a path, data or an identifier rather
/// than text meant for the reader.
pub open spec fn is_technical(t: Seq<char>) -> bool {
    ||| t.len() == 0
    ||| has_prefix(t, "/"@)
    ||| has_prefix(t, "{"@)
    ||| has_suffix(t, "}"@)
    ||| has_suffix(t, ".png"@)
    ||| has_suffix(t, ".jpg"@)
    ||| has_suffix(t, ".rpy"@)
    ||| has_suffix(t, ".rpyc"@)
    ||| has_infix(t, "renpy."@)
    ||| has_infix(t, "def "@)
    ||| has_infix(t, "class "@)
    ||| has_infix(t, "import "@)
    ||| has_infix(t, "\":\""@)
    ||| has_infix(t, "\": \""@)
    ||| has_infix(t, "#"@)
    ||| (forall|k: int| 0 <= k < t.len() ==> is_word_char(#[trigger] t[k]))
}

/// Whether a trimmed string is a speaker name in double quotes.
pub open spec fn is_quoted_name(t: Seq<char>) -> bool {
    has_prefix(t, "\""@) && has_suffix(t, "\""@) && encode_utf8(t).len() <= 20
}

/// What the extractor remembers between strings.
pub struct ScanState {
    pub speaker: Option<Seq<char>>,
    pub background: Option<Seq<char>>,
}

/// One string's effect: the next state, and the lines it adds (none or one).
pub open spec fn scan_step(s: Seq<char>, known: Set<Seq<char>>, st: ScanState) -> (ScanState, Seq<DialogueView>) {
    let t = trim(s);
    let bg = if known.contains(lowercase(t)) || is_bg_tag(t) {
        Some(t)
    } else {
        st.background
    };
    if is_technical(t) {
        (ScanState { speaker: st.speaker, background: bg }, seq![])
    } else if is_quoted_name(t) {
        let name = trim(t.subrange(1, t.len() - 1));
        let speaker = if name.len() > 0 {
            Some(name)
        } else {
            st.speaker
        };
        (ScanState { speaker, background: bg }, seq![])
    } else if encode_utf8(t).len() >= 2 {
        let line = DialogueView {
            speaker: st.speaker,
            text: t,
            background: bg,
            music: None,
            sound: None,
            choices: Seq::<ChoiceView>::empty(),
        };
        (ScanState { speaker: None, background: bg }, seq![line])
    } else {
        (ScanState { speaker: st.speaker, background: bg }, seq![])
    }
}

/// The lines that a sequence of strings yields from state `st`.
pub open spec fn dialogue_from(strs: Seq<Seq<char>>, known: Set<Seq<char>>, st: ScanState) -> Seq<DialogueView>
    decreases strs.len(),
{
    if strs.len() == 0 {
        seq![]
    } else {
        let (next, out) = scan_step(strs[0], known, st);
        out + dialogue_from(strs.drop_first(), known, next)
    }
}

/// The state in which extraction starts: no speaker, no background.
pub open spec fn start_state() -> ScanState {
    ScanState { speaker: None, background: None }
}

/// Whether some string of the payload trims to a lone double quote, the
/// one string whose quoted name cannot be sliced out.
pub open spec fn has_lone_quote(strs: Seq<Seq<char>>) -> bool {
    exists|k: int| 0 <= k < strs.len() && trim(#[trigger] strs[k]) == "\""@
}

/// The abstract contents of a list of lines.
pub open spec fn lines_view(v: Seq<DialogueLine>) -> Seq<DialogueView> {
    v.map_values(|l: DialogueLine| l@)
}

/// The strings of a list of string slices.
pub open spec fn strs_view(v: Seq<&str>) -> Seq<Seq<char>> {
    v.map_values(|s: &str| s@)
}

/// Extracts dialogue from compiled script bytecode.
pub struct ScriptExtractor;

impl ScriptExtractor {
    /// Every string that the scanner reads from the payload, in order.
    pub fn payload_strings(payload: &[u8]) -> (r: Vec<&str>)
        ensures
            strs_view(r@) == scan_strings(payload@, 0),
    {
        let n = payload.len();
        let mut out: Vec<&str> = Vec::new();
        let mut i: usize = 0;
        while i < n
            invariant
                n == payload@.len(),
                i <= n,
                strs_view(out@) + scan_strings(payload@, i as int) == scan_strings(payload@, 0),
            decreases n - i,
        {
            let ghost p = payload@;
            let ghost before = strs_view(out@);
            if payload[i] == 0x58u8 && n - i >= 5 {
                let len = read_le_u32(payload, i + 1) as usize;
                let start = i + 5;
                if len <= n - start {
                    let bytes = &payload[start..start + len];
                    match utf8_slice(bytes) {
                        Some(s) => {
                            proof {
                                lemma_utf8_slice_chars(s, bytes@);
                            }
                            out.push(s);
                            assert(strs_view(out@) =~= before.push(s@));
                            assert(before.push(s@) + scan_strings(p, (start + len) as int) =~= before
                                + (seq![s@] + scan_strings(p, (start + len) as int)));
                        },
                        None => {},
                    }
                    i = start + len;
                    continue;
                }
                if start < n {
                    i = start + 1;
                } else {
                    assert(scan_strings(p, start + 1) == Seq::<Seq<char>>::empty());
                    i = n;
                }
                continue;
            }
            i += 1;
        }
        assert(strs_view(out@) + scan_strings(payload@, i as int) =~= strs_view(out@));
        out
    }

    /// Whether some string of the payload trims to a lone double quote;
    /// extraction is defined on every other payload.
    pub fn holds_lone_quote(payload: &[u8]) -> (r: bool)
        ensures
            r == has_lone_quote(scan_strings(payload@, 0)),
    {
        let strs = Self::payload_strings(payload);
        let ghost all = strs_view(strs@);
        let quote = str_chars("\"");
        let mut j: usize = 0;
        while j < strs.len()
            invariant
                all == strs_view(strs@),
                all == scan_strings(payload@, 0),
                quote@ == "\""@,
                j <= strs@.len(),
                forall|k: int| 0 <= k < j ==> trim(#[trigger] all[k]) != "\""@,
            decreases strs@.len() - j,
        {
            let cs = str_chars(strs[j]);
            let (a, b) = trim_bounds(&cs);
            if same_chars(&cs[a..b], &quote) {
                assert(trim(all[j as int]) == "\""@);
                return true;
            }
            j += 1;
        }
        false
    }

    /// Dialogue lines, in payload order, from the strings of a compiled
    /// script: quoted short strings name the speaker of the next line,
    /// background tags and known image names (compared in lower case) set
    /// the background of the lines that follow, and every other string of
    /// two bytes or more that is not technical becomes a line.
    pub fn extract_dialogue_from_payload(payload: &[u8], known_images: &HashSet<String>) -> (lines: Vec<DialogueLine>)
        requires
            !has_lone_quote(scan_strings(payload@, 0)),
        ensures
            lines_view(lines@) == dialogue_from(
                scan_strings(payload@, 0),
                set_texts(*known_images),
                start_state(),
            ),
    {
        let strs = Self::payload_strings(payload);
        let ghost all = strs_view(strs@);
        let ghost known = set_texts(*known_images);
        let n = strs.len();
        let mut lines: Vec<DialogueLine> = Vec::new();
        let mut speaker: Option<String> = None;
        let mut background: Option<String> = None;
        assert(all.subrange(0, n as int) =~= all);
        let mut j: usize = 0;
        while j < n
            invariant
                n == strs@.len(),
                all == strs_view(strs@),
                all == scan_strings(payload@, 0),
                known == set_texts(*known_images),
                !has_lone_quote(all),
                j <= n,
                lines_view(lines@) + dialogue_from(
                    all.subrange(j as int, n as int),
                    known,
                    ScanState { speaker: opt_text(speaker), background: opt_text(background) },
                ) == dialogue_from(all, known, start_state()),
            decreases n - j,
        {
            assert(trim(all[j as int]) != "\""@);
            let ghost st = ScanState { speaker: opt_text(speaker), background: opt_text(background) };
            let ghost rest = all.subrange(j as int, n as int);
            assert(rest[0] == strs@[j as int]@);
            assert(rest.drop_first() =~= all.subrange(j + 1, n as int));
            let ghost before = lines_view(lines@);
            let (sp, bg, line) = Self::read_string(strs[j], known_images, speaker, background);
            match line {
                Some(l) => {
                    lines.push(l);
                    assert(lines_view(lines@) =~= before + seq![l@]);
                },
                None => {},
            }
            speaker = sp;
            background = bg;
            j += 1;
        }
        lines
    }

    /// One string's effect on the extractor: the next speaker and
    /// background, and the line it yields, if any.
    fn read_string(
        s: &str,
        known_images: &HashSet<String>,
        speaker: Option<String>,
        background: Option<String>,
    ) -> (r: (Option<String>, Option<String>, Option<DialogueLine>))
        requires
            trim(s@) != "\""@,
        ensures
            ({
                let (next, out) = scan_step(
                    s@,
                    set_texts(*known_images),
                    ScanState { speaker: opt_text(speaker), background: opt_text(background) },
                );
                &&& opt_text(r.0) == next.speaker
                &&& opt_text(r.1) == next.background
                &&& out == (match r.2 {
                    Some(l) => seq![l@],
                    None => Seq::<DialogueView>::empty(),
                })
            }),
    {
        let cs = str_chars(s);
        let (a, b) = trim_bounds(&cs);
        let t = &cs[a..b];
        let ts = s.substring_char(a, b);
        assert(ts@ == t@);
        let mut speaker = speaker;
        let mut background = background;

        let lower = to_lowercase(ts);
        let is_known_cg = holds_text(known_images, lower.as_str());
        let is_bg_tag = (has_text(t, "background") || has_text(t, "_bg") || begins(t, "d1_") || begins(
            t,
            "d2_",
        ) || begins(t, "d3_") || begins(t, "d4_") || begins(t, "d5_") || begins(t, "d6_") || begins(
            t,
            "d7_",
        ) || begins(t, "a_") || begins(t, "b_") || begins(t, "c_") || begins(t, "d_") || begins(
            t,
            "e_",
        ) || begins(t, "f_") || begins(t, "g_")) && ts.as_bytes().len() <= 40 && !has_text(t, "/") && !has_text(
            t,
            " ",
        ) && !has_text(t, ".") && !begins(t, "crenpy") && !is_text(t, "version") && !is_text(
            t,
            "unlocked",
        );
        if is_known_cg || is_bg_tag {
            background = Some(ts.to_owned());
        }
        let is_technical = t.len() == 0 || begins(t, "/") || begins(t, "{") || finishes(t, "}")
            || finishes(t, ".png") || finishes(t, ".jpg") || finishes(t, ".rpy") || finishes(
            t,
            ".rpyc",
        ) || has_text(t, "renpy.") || has_text(t, "def ") || has_text(t, "class ") || has_text(
            t,
            "import ",
        ) || has_text(t, "\":\"") || has_text(t, "\": \"") || has_text(t, "#") || all_word_chars(t);
        if is_technical {
            return (speaker, background, None);
        }
        if begins(t, "\"") && finishes(t, "\"") && ts.as_bytes().len() <= 20 {
            proof {
                reveal_strlit("\"");
                assert(t@.len() >= 2) by {
                    if t@.len() < 2 {
                        assert(t@ =~= "\""@);
                    }
                }
            }
            let inner = ts.substring_char(1, t.len() - 1);
            let ics = str_chars(inner);
            let (c, d) = trim_bounds(&ics);
            if c < d {
                let name = inner.substring_char(c, d);
                speaker = Some(name.to_owned());
            }
            return (speaker, background, None);
        }
        if ts.as_bytes().len() >= 2 {
            let mut line = DialogueLine::new(speaker, ts.to_owned());
            if let Some(bg) = &background {
                line.background = Some(bg.clone());
            }
            assert(line.choices@.map_values(|c: ChoiceItem| c@) =~= Seq::<ChoiceView>::empty());
            return (None, background, Some(line));
        }
        (speaker, background, None)
    }
}

/// Whether `t` contains the text of `p`.
fn has_text(t: &[char], p: &str) -> (r: bool)
    ensures
        r == has_infix(t@, p@),
{
    contains(t, &str_chars(p))
}

/// Whether `t` starts with the text of `p`.
fn begins(t: &[char], p: &str) -> (r: bool)
    ensures
        r == has_prefix(t@, p@),
{
    starts_with(t, &str_chars(p))
}

/// Whether `t` ends with the text of `p`.
fn finishes(t: &[char], p: &str) -> (r: bool)
    ensures
        r == has_suffix(t@, p@),
{
    ends_with(t, &str_chars(p))
}

/// Whether `t` is exactly the text of `p`.
fn is_text(t: &[char], p: &str) -> (r: bool)
    ensures
        r == (t@ == p@),
{
    same_chars(t, &str_chars(p))
}

/// Whether every character of `t` is ASCII alphanumeric or an underscore.
fn all_word_chars(t: &[char]) -> (r: bool)
    ensures
        r == (forall|k: int| 0 <= k < t@.len() ==> is_word_char(#[trigger] t@[k])),
{
    let mut k: usize = 0;
    while k < t.len()
        invariant
            k <= t@.len(),
            forall|i: int| 0 <= i < k ==> is_word_char(#[trigger] t@[i]),
        decreases t@.len() - k,
    {
        let c = t[k];
        if !(('a' <= c && c <= 'z') || ('A' <= c && c <= 'Z') || ('0' <= c && c <= '9') || c == '_') {
            assert(!is_word_char(t@[k as int]));
            return false;
        }
        k += 1;
    }
    true
}


/// Whether a dialogue line reads as text: not technical, not a quoted
/// speaker name, at least two bytes long, with a non-empty speaker where
/// it has one, and no choices.
pub open spec fn readable_line(l: DialogueView) -> bool {
    &&& !is_technical(l.text)
    &&& !is_quoted_name(l.text)
    &&& encode_utf8(l.text).len() >= 2
    &&& (l.speaker matches Some(n) ==> n.len() > 0)
    &&& l.choices.len() == 0
}

/// Every line extracted from a script reads as text: the extractor passes
/// over technical strings and speaker names, and keeps no line shorter
/// than two bytes.
pub proof fn law_extracted_lines_readable(strs: Seq<Seq<char>>, known: Set<Seq<char>>, st: ScanState)
    requires
        st.speaker matches Some(n) ==> n.len() > 0,
    ensures
        forall|i: int|
            0 <= i < dialogue_from(strs, known, st).len() ==> #[trigger] readable_line(
                dialogue_from(strs, known, st)[i],
            ),
    decreases strs.len(),
{
    if strs.len() > 0 {
        let (next, out) = scan_step(strs[0], known, st);
        assert(next.speaker matches Some(n) ==> n.len() > 0);
        law_extracted_lines_readable(strs.drop_first(), known, next);
        let rest = dialogue_from(strs.drop_first(), known, next);
        let all = dialogue_from(strs, known, st);
        assert(all == out + rest);
        assert forall|i: int| 0 <= i < all.len() implies #[trigger] readable_line(all[i]) by {
            if i < out.len() {
                assert(out.len() == 1);
                assert(all[i] == out[0]);
            } else {
                assert(all[i] == rest[i - out.len()]);
            }
        }
    }
}

} // verus!
