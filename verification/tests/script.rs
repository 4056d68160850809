use mkrp::engine::script::ScriptExtractor;
use std::collections::HashSet;

fn x(s: &[u8]) -> Vec<u8> {
    let mut v = vec![b'X'];
    v.extend_from_slice(&(s.len() as u32).to_le_bytes());
    v.extend_from_slice(s);
    v
}

fn payload(parts: &[&[u8]]) -> Vec<u8> {
    let mut v = Vec::new();
    for p in parts {
        v.extend_from_slice(b"q\x01");
        v.extend_from_slice(&x(p));
    }
    v
}

#[test]
fn strings_are_read_from_x_records() {
    let p = payload(&[b"one", "두".as_bytes(), b"\xff\xfe", b"three"]);
    let strs = ScriptExtractor::payload_strings(&p);
    assert_eq!(strs, vec!["one", "두", "three"]);
}

#[test]
fn truncated_record_is_stepped_over() {
    let mut p = x(b"first");
    p.push(b'X');
    p.extend_from_slice(&100u32.to_le_bytes());
    p.extend_from_slice(b"tail");
    let strs = ScriptExtractor::payload_strings(&p);
    assert_eq!(strs, vec!["first"]);
}

#[test]
fn speaker_background_and_dialogue() {
    let p = payload(&[b"\"Bob\"", b"d1_bg01", b"Hello there, friend!", b"Second line here."]);
    let known = HashSet::new();
    let lines = ScriptExtractor::extract_dialogue_from_payload(&p, &known);
    assert_eq!(lines.len(), 2);
    assert_eq!(lines[0].speaker.as_deref(), Some("Bob"));
    assert_eq!(lines[0].text, "Hello there, friend!");
    assert_eq!(lines[0].background.as_deref(), Some("d1_bg01"));
    assert_eq!(lines[1].speaker, None);
    assert_eq!(lines[1].background.as_deref(), Some("d1_bg01"));
    assert!(lines[0].choices.is_empty());
    assert!(lines[0].music.is_none() && lines[0].sound.is_none());
}

#[test]
fn technical_strings_are_not_dialogue() {
    let p = payload(&[
        b"images/bg.png",
        b"renpy.call",
        b"some_identifier",
        b"{\"a\":\"b\"}",
        b"def foo():",
        b"# comment here",
        b"   ",
        b"x",
        b"Real words.",
    ]);
    let lines = ScriptExtractor::extract_dialogue_from_payload(&p, &HashSet::new());
    assert_eq!(lines.len(), 1);
    assert_eq!(lines[0].text, "Real words.");
}

#[test]
fn known_images_match_in_lower_case() {
    let mut known = HashSet::new();
    known.insert("cg07".to_string());
    let p = payload(&[b"  CG07  ", b"Look at that!"]);
    let lines = ScriptExtractor::extract_dialogue_from_payload(&p, &known);
    assert_eq!(lines.len(), 1);
    assert_eq!(lines[0].background.as_deref(), Some("CG07"));
}

#[test]
fn reserved_words_and_paths_are_not_tags() {
    let p = payload(&[b"a_version", b"d1_x/y", b"d2_a.b", b"Some line ok"]);
    let lines = ScriptExtractor::extract_dialogue_from_payload(&p, &HashSet::new());
    assert_eq!(lines.len(), 3);
    assert_eq!(lines[0].text, "d1_x/y");
    for l in &lines {
        assert_eq!(l.background.as_deref(), Some("a_version"));
    }
}

#[test]
fn quoted_name_is_trimmed_and_empty_quotes_keep_speaker() {
    let p = payload(&[b"\" Vera \"", b"\"\"", b"Hi."]);
    let lines = ScriptExtractor::extract_dialogue_from_payload(&p, &HashSet::new());
    assert_eq!(lines.len(), 1);
    assert_eq!(lines[0].speaker.as_deref(), Some("Vera"));
}

#[test]
fn long_quoted_string_is_dialogue() {
    let p = payload(&[b"\"This quotation is long enough\""]);
    let lines = ScriptExtractor::extract_dialogue_from_payload(&p, &HashSet::new());
    assert_eq!(lines.len(), 1);
    assert_eq!(lines[0].text, "\"This quotation is long enough\"");
}

#[test]
fn unicode_white_space_is_trimmed() {
    let p = payload(&["\u{3000}안녕하세요\u{00a0}".as_bytes()]);
    let lines = ScriptExtractor::extract_dialogue_from_payload(&p, &HashSet::new());
    assert_eq!(lines.len(), 1);
    assert_eq!(lines[0].text, "안녕하세요");
}

#[test]
fn lone_quote_is_detected() {
    assert!(ScriptExtractor::holds_lone_quote(&payload(&[b"ok line", b" \" "])));
    assert!(!ScriptExtractor::holds_lone_quote(&payload(&[b"ok line", b"\"\""])));
}

#[test]
fn empty_payload_gives_no_lines() {
    assert!(ScriptExtractor::extract_dialogue_from_payload(&[], &HashSet::new()).is_empty());
}
