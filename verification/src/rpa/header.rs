//! The first line of an RPA archive: `RPA-3.2`, `RPA-3.0` or `RPA-2.0`,
//! then the index offset and the obfuscation key in hexadecimal.

use vstd::prelude::*;
use vstd::string::{StrSliceExecFns, StringExecFns};

use crate::rpa::error::RpaError;
use crate::text::{has_prefix, is_white_space, lemma_trim_start_len, starts_with, str_chars, trim, trim_bounds, trim_start, white_space};

verus! {

/// The layout of an RPA archive.
#[derive(Debug, Clone, Copy, PartialEq, Eq, Structural)]
pub enum RpaVersion {
    Rpa3,
    Rpa2,
    Rpa1,
}

/// The length of the run of non-white-space characters that `s` starts with.
pub open spec fn word_len(s: Seq<char>) -> nat
    decreases s.len(),
{
    if s.len() == 0 || is_white_space(s[0]) {
        0
    } else {
        1 + word_len(s.drop_first())
    }
}

/// The words of `s`: its maximal runs of non-white-space characters, in
/// order, as `str::split_whitespace` yields them.
pub open spec fn words(s: Seq<char>) -> Seq<Seq<char>>
    decreases s.len(),
{
    let t = trim_start(s);
    if t.len() == 0 {
        seq![]
    } else {
        let n = word_len(t);
        if n == 0 || n > t.len() {
            seq![]
        } else {
            proof {
                lemma_trim_start_len(s);
            }
            seq![t.subrange(0, n as int)] + words(t.subrange(n as int, t.len() as int))
        }
    }
}

/// How `u64::from_str_radix(_, 16)` fails.
#[derive(Debug, Clone, Copy, PartialEq, Eq, Structural)]
pub enum HexError {
    Empty,
    InvalidDigit,
    Overflow,
}

/// The value of a hexadecimal digit, either case.
pub open spec fn hex_digit(c: char) -> Option<int> {
    if '0' <= c <= '9' {
        Some(c as int - '0' as int)
    } else if 'a' <= c <= 'f' {
        Some(c as int - 'a' as int + 10)
    } else if 'A' <= c <= 'F' {
        Some(c as int - 'A' as int + 10)
    } else {
        None
    }
}

/// The digits `d`, read after the value `acc`, left to right: the first
/// non-digit is an invalid digit, and a value past `u64::MAX` an overflow.
pub open spec fn hex_digits(d: Seq<char>, acc: int) -> Result<u64, HexError>
    decreases d.len(),
{
    if d.len() == 0 {
        Ok(acc as u64)
    } else {
        match hex_digit(d[0]) {
            None => Err(HexError::InvalidDigit),
            Some(x) => if acc * 16 + x > u64::MAX {
                Err(HexError::Overflow)
            } else {
                hex_digits(d.drop_first(), acc * 16 + x)
            },
        }
    }
}

/// `u64::from_str_radix(s, 16)`: an optional `+`, then one or more
/// hexadecimal digits whose value fits in 64 bits.
pub open spec fn parse_hex(s: Seq<char>) -> Result<u64, HexError> {
    if s.len() == 0 {
        Err(HexError::Empty)
    } else if s == seq!['+'] || s == seq!['-'] {
        Err(HexError::InvalidDigit)
    } else if s[0] == '+' {
        hex_digits(s.drop_first(), 0)
    } else {
        hex_digits(s, 0)
    }
}

/// The exclusive-or of the keys among `parts` that parse as hexadecimal;
/// the others are passed over.
pub open spec fn xor_keys(parts: Seq<Seq<char>>) -> u64
    decreases parts.len(),
{
    if parts.len() == 0 {
        0
    } else {
        match parse_hex(parts.last()) {
            Ok(k) => xor_keys(parts.drop_last()) ^ k,
            Err(_) => xor_keys(parts.drop_last()),
        }
    }
}

/// What a header line says, or how it is wrong.
pub enum HeaderResult {
    /// Version, index offset and key.
    Parsed(RpaVersion, u64, u64),
    /// Too few fields after the version tag.
    TooFewFields,
    /// The offset is not hexadecimal.
    BadOffset(HexError),
}

/// The header `line` read: an `RPA-3.2 ` line has the offset in its
/// second field and keys from its fourth; `RPA-3.0 ` and `RPA-2.0 ` lines
/// have the offset second and keys from the third. Every other line marks
/// an RPA-1 archive, whose index starts the file and has no key.
pub open spec fn header_of(line: Seq<char>) -> HeaderResult {
    let parts = words(line);
    if has_prefix(line, "RPA-3.2 "@) {
        if parts.len() < 4 {
            HeaderResult::TooFewFields
        } else {
            match parse_hex(parts[1]) {
                Err(e) => HeaderResult::BadOffset(e),
                Ok(o) => HeaderResult::Parsed(
                    RpaVersion::Rpa3,
                    o,
                    xor_keys(parts.subrange(3, parts.len() as int)),
                ),
            }
        }
    } else if has_prefix(line, "RPA-3.0 "@) || has_prefix(line, "RPA-2.0 "@) {
        if parts.len() < 3 {
            HeaderResult::TooFewFields
        } else {
            match parse_hex(parts[1]) {
                Err(e) => HeaderResult::BadOffset(e),
                Ok(o) => HeaderResult::Parsed(
                    if has_prefix(line, "RPA-3.0 "@) {
                        RpaVersion::Rpa3
                    } else {
                        RpaVersion::Rpa2
                    },
                    o,
                    xor_keys(parts.subrange(2, parts.len() as int)),
                ),
            }
        }
    } else {
        HeaderResult::Parsed(RpaVersion::Rpa1, 0, 0)
    }
}

pub(crate) proof fn lemma_words_skip(s: Seq<char>, i: int)
    requires
        0 <= i < s.len(),
        is_white_space(s[i]),
    ensures
        words(s.subrange(i, s.len() as int)) == words(s.subrange(i + 1, s.len() as int)),
{
    let a = s.subrange(i, s.len() as int);
    assert(a.drop_first() =~= s.subrange(i + 1, s.len() as int));
    assert(trim_start(a) == trim_start(a.drop_first()));
}

proof fn lemma_word_len(s: Seq<char>, i: int, j: int)
    requires
        0 <= i <= j <= s.len(),
        forall|k: int| i <= k < j ==> !is_white_space(#[trigger] s[k]),
        j == s.len() || is_white_space(s[j]),
    ensures
        word_len(s.subrange(i, s.len() as int)) == j - i,
    decreases j - i,
{
    let a = s.subrange(i, s.len() as int);
    if i < j {
        assert(a.drop_first() =~= s.subrange(i + 1, s.len() as int));
        lemma_word_len(s, i + 1, j);
    }
}

pub(crate) proof fn lemma_words_take(s: Seq<char>, i: int, j: int)
    requires
        0 <= i < j <= s.len(),
        forall|k: int| i <= k < j ==> !is_white_space(#[trigger] s[k]),
        j == s.len() || is_white_space(s[j]),
    ensures
        words(s.subrange(i, s.len() as int)) == seq![s.subrange(i, j)] + words(
            s.subrange(j, s.len() as int),
        ),
{
    let a = s.subrange(i, s.len() as int);
    assert(trim_start(a) == a);
    lemma_word_len(s, i, j);
    assert(a.subrange(0, j - i) =~= s.subrange(i, j));
    assert(a.subrange(j - i, a.len() as int) =~= s.subrange(j, s.len() as int));
}

/// `str::split_whitespace`, as bounds into the characters.
pub(crate) fn word_bounds(s: &[char]) -> (r: Vec<(usize, usize)>)
    ensures
        r@.len() == words(s@).len(),
        forall|k: int|
            #![trigger r@[k]]
            0 <= k < r@.len() ==> r@[k].0 <= r@[k].1 <= s@.len() && s@.subrange(
                r@[k].0 as int,
                r@[k].1 as int,
            ) == words(s@)[k],
{
    let n = s.len();
    let mut out: Vec<(usize, usize)> = Vec::new();
    let ghost acc: Seq<Seq<char>> = seq![];
    let mut i: usize = 0;
    assert(s@.subrange(0, n as int) =~= s@);
    while i < n
        invariant
            n == s@.len(),
            i <= n,
            acc + words(s@.subrange(i as int, n as int)) == words(s@),
            out@.len() == acc.len(),
            forall|k: int|
                #![trigger out@[k]]
                0 <= k < out@.len() ==> out@[k].0 <= out@[k].1 <= s@.len()
                    && s@.subrange(out@[k].0 as int, out@[k].1 as int) == acc[k],
        decreases n - i,
    {
        if white_space(s[i]) {
            proof {
                lemma_words_skip(s@, i as int);
            }
            i += 1;
        } else {
            let mut j = i + 1;
            while j < n && !white_space(s[j])
                invariant
                    n == s@.len(),
                    i < j <= n,
                    forall|k: int| i <= k < j ==> !is_white_space(#[trigger] s@[k]),
                decreases n - j,
            {
                j += 1;
            }
            proof {
                lemma_words_take(s@, i as int, j as int);
                acc = acc.push(s@.subrange(i as int, j as int));
                assert(acc + words(s@.subrange(j as int, n as int)) =~= (acc.drop_last() + seq![
                    s@.subrange(i as int, j as int),
                ]) + words(s@.subrange(j as int, n as int)));
            }
            out.push((i, j));
            i = j;
        }
    }
    assert(s@.subrange(n as int, n as int) =~= Seq::<char>::empty());
    assert(acc =~= words(s@));
    out
}


/// The value of a hexadecimal digit character.
fn hex_digit_value(c: char) -> (r: Option<u64>)
    ensures
        match hex_digit(c) {
            Some(x) => r == Some(x as u64),
            None => r is None,
        },
{
    if '0' <= c && c <= '9' {
        Some((c as u32 - '0' as u32) as u64)
    } else if 'a' <= c && c <= 'f' {
        Some((c as u32 - 'a' as u32 + 10) as u64)
    } else if 'A' <= c && c <= 'F' {
        Some((c as u32 - 'A' as u32 + 10) as u64)
    } else {
        None
    }
}

/// `u64::from_str_radix(s, 16)`, over characters.
pub fn parse_hex_chars(s: &[char]) -> (r: Result<u64, HexError>)
    ensures
        r == parse_hex(s@),
{
    let n = s.len();
    if n == 0 {
        return Err(HexError::Empty);
    }
    if n == 1 && (s[0] == '+' || s[0] == '-') {
        assert(s@ =~= seq![s@[0]]);
        return Err(HexError::InvalidDigit);
    }
    proof {
        if s@ == seq!['+'] || s@ == seq!['-'] {
            assert(s@.len() == 1);
        }
    }
    let mut k: usize = if s[0] == '+' { 1 } else { 0 };
    let ghost d = s@.subrange(k as int, n as int);
    assert(d =~= (if s@[0] == '+' { s@.drop_first() } else { s@ }));
    let mut acc: u64 = 0;
    assert(parse_hex(s@) == hex_digits(d, 0));
    while k < n
        invariant
            n == s@.len(),
            k <= n,
            parse_hex(s@) == hex_digits(d, 0),
            hex_digits(d, 0) == hex_digits(s@.subrange(k as int, n as int), acc as int),
        decreases n - k,
    {
        let ghost rest = s@.subrange(k as int, n as int);
        assert(rest[0] == s@[k as int]);
        assert(rest.drop_first() =~= s@.subrange(k + 1, n as int));
        match hex_digit_value(s[k]) {
            None => {
                return Err(HexError::InvalidDigit);
            },
            Some(x) => {
                if acc > 0x0fff_ffff_ffff_ffffu64 {
                    assert(acc * 16 + x > u64::MAX);
                    return Err(HexError::Overflow);
                }
                acc = acc * 16 + x;
            },
        }
        k += 1;
    }
    assert(s@.subrange(n as int, n as int) =~= Seq::<char>::empty());
    Ok(acc)
}

/// The message that `ParseIntError` displays for each kind of failure.
pub open spec fn hex_error_text(e: HexError) -> Seq<char> {
    match e {
        HexError::Empty => "cannot parse integer from empty string"@,
        HexError::InvalidDigit => "invalid digit found in string"@,
        HexError::Overflow => "number too large to fit in target type"@,
    }
}

/// The message that `ParseIntError` displays for a failure.
pub fn hex_error_str(e: HexError) -> (r: &'static str)
    ensures
        r@ == hex_error_text(e),
{
    match e {
        HexError::Empty => "cannot parse integer from empty string",
        HexError::InvalidDigit => "invalid digit found in string",
        HexError::Overflow => "number too large to fit in target type",
    }
}

fn hex_error_message(e: HexError) -> (r: String)
    ensures
        r@ == "Bad offset: "@ + hex_error_text(e),
{
    let mut m = String::from_str("Bad offset: ");
    match e {
        HexError::Empty => m.append("cannot parse integer from empty string"),
        HexError::InvalidDigit => m.append("invalid digit found in string"),
        HexError::Overflow => m.append("number too large to fit in target type"),
    }
    m
}

/// The exclusive-or of the parsable keys among the words from `from` on.
fn xor_key_words(cs: &[char], bounds: &Vec<(usize, usize)>, from: usize) -> (r: u64)
    requires
        from <= words(cs@).len(),
        bounds@.len() == words(cs@).len(),
        forall|k: int|
            #![trigger bounds@[k]]
            0 <= k < bounds@.len() ==> bounds@[k].0 <= bounds@[k].1 <= cs@.len()
                && cs@.subrange(bounds@[k].0 as int, bounds@[k].1 as int) == words(cs@)[k],
    ensures
        r == xor_keys(words(cs@).subrange(from as int, words(cs@).len() as int)),
{
    let ghost all = words(cs@);
    let mut key: u64 = 0;
    let mut k = from;
    assert(all.subrange(from as int, from as int) =~= Seq::<Seq<char>>::empty());
    while k < bounds.len()
        invariant
            all == words(cs@),
            from <= k <= bounds@.len() == all.len(),
            forall|i: int|
                #![trigger bounds@[i]]
                0 <= i < bounds@.len() ==> bounds@[i].0 <= bounds@[i].1 <= cs@.len()
                    && cs@.subrange(bounds@[i].0 as int, bounds@[i].1 as int) == all[i],
            key == xor_keys(all.subrange(from as int, k as int)),
        decreases bounds@.len() - k,
    {
        let (a, b) = bounds[k];
        let parsed = parse_hex_chars(&cs[a..b]);
        assert(all.subrange(from as int, k + 1).drop_last() =~= all.subrange(from as int, k as int));
        assert(all.subrange(from as int, k + 1).last() == all[k as int]);
        match parsed {
            Ok(sub) => {
                key = key ^ sub;
            },
            Err(_) => {},
        }
        k += 1;
    }
    key
}

/// The message for a header with too few fields.
fn too_few_fields_message(tag: &str, line: &str, cs: &[char]) -> (r: String)
    requires
        cs@ == line@,
    ensures
        r@ == tag@ + " header has insufficient fields: "@ + trim(line@),
{
    let (a, b) = trim_bounds(cs);
    let t = line.substring_char(a, b);
    let mut m = String::from_str(tag);
    m.append(" header has insufficient fields: ");
    m.append(t);
    m
}

/// Reads a header line. On success: the version, the offset of the index
/// and the key (0 for RPA-1, whose index is the whole file).
pub fn parse_header(line: &str) -> (r: Result<(RpaVersion, u64, u64), RpaError>)
    ensures
        match header_of(line@) {
            HeaderResult::Parsed(v, o, k) => r == Ok::<(RpaVersion, u64, u64), RpaError>((v, o, k)),
            HeaderResult::TooFewFields => r matches Err(RpaError::InvalidHeader(m)) && m@ == (
            if has_prefix(line@, "RPA-3.2 "@) {
                "RPA-3.2"@
            } else if has_prefix(line@, "RPA-3.0 "@) {
                "RPA-3.0"@
            } else {
                "RPA-2.0"@
            }) + " header has insufficient fields: "@ + trim(line@),
            HeaderResult::BadOffset(e) => r matches Err(RpaError::InvalidHeader(m)) && m@
                == "Bad offset: "@ + hex_error_text(e),
        },
{
    let cv = str_chars(line);
    let cs = cv.as_slice();
    let is32 = starts_with(cs, &str_chars("RPA-3.2 "));
    let is30 = starts_with(cs, &str_chars("RPA-3.0 "));
    let is20 = starts_with(cs, &str_chars("RPA-2.0 "));
    if !is32 && !is30 && !is20 {
        return Ok((RpaVersion::Rpa1, 0, 0));
    }
    let bounds = word_bounds(cs);
    let (tag, need, version) = if is32 {
        ("RPA-3.2", 4, RpaVersion::Rpa3)
    } else if is30 {
        ("RPA-3.0", 3, RpaVersion::Rpa3)
    } else {
        ("RPA-2.0", 3, RpaVersion::Rpa2)
    };
    if bounds.len() < need {
        return Err(RpaError::InvalidHeader(too_few_fields_message(tag, line, cs)));
    }
    let (a, b) = bounds[1];
    let offset = match parse_hex_chars(&cs[a..b]) {
        Ok(o) => o,
        Err(e) => {
            return Err(RpaError::InvalidHeader(hex_error_message(e)));
        },
    };
    let key = xor_key_words(cs, &bounds, need - 1);
    Ok((version, offset, key))
}

} // verus!
