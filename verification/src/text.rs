//! Character-level string facts: Unicode white space, trimming, and
//! prefix, suffix and substring tests, over sequences of characters.

use vstd::prelude::*;
use vstd::string::{StrSliceExecFns, StringExecFns};

verus! {

/// Unicode `White_Space`, the property that `char::is_whitespace` tests:
/// tab, line feed, vertical tab, form feed, carriage return, space, and
/// U+0085, U+00A0, U+1680, U+2000..=U+200A, U+2028, U+2029, U+202F,
/// U+205F and U+3000.
pub open spec fn is_white_space(c: char) -> bool {
    let u = c as u32;
    ||| 0x09 <= u <= 0x0d
    ||| u == 0x20
    ||| u == 0x85
    ||| u == 0xa0
    ||| u == 0x1680
    ||| 0x2000 <= u <= 0x200a
    ||| u == 0x2028
    ||| u == 0x2029
    ||| u == 0x202f
    ||| u == 0x205f
    ||| u == 0x3000
}

/// `s` without its leading white space.
pub open spec fn trim_start(s: Seq<char>) -> Seq<char>
    decreases s.len(),
{
    if s.len() > 0 && is_white_space(s[0]) {
        trim_start(s.drop_first())
    } else {
        s
    }
}

/// Trimming the start never lengthens a string.
pub proof fn lemma_trim_start_len(s: Seq<char>)
    ensures
        trim_start(s).len() <= s.len(),
    decreases s.len(),
{
    if s.len() > 0 && is_white_space(s[0]) {
        lemma_trim_start_len(s.drop_first());
    }
}

/// `s` without its trailing white space.
pub open spec fn trim_end(s: Seq<char>) -> Seq<char>
    decreases s.len(),
{
    if s.len() > 0 && is_white_space(s.last()) {
        trim_end(s.drop_last())
    } else {
        s
    }
}

/// `s` without leading and trailing white space, as `str::trim` gives it.
pub open spec fn trim(s: Seq<char>) -> Seq<char> {
    trim_end(trim_start(s))
}

/// Whether the sequence `s` begins with `p`.
pub open spec fn has_prefix<T>(s: Seq<T>, p: Seq<T>) -> bool {
    p.len() <= s.len() && s.subrange(0, p.len() as int) == p
}

/// Whether `s` ends with `p`.
pub open spec fn has_suffix<T>(s: Seq<T>, p: Seq<T>) -> bool {
    p.len() <= s.len() && s.subrange(s.len() - p.len(), s.len() as int) == p
}

/// Whether `p` occurs in `s` at position `k`.
pub open spec fn occurs_at<T>(s: Seq<T>, p: Seq<T>, k: int) -> bool {
    0 <= k && k + p.len() <= s.len() && s.subrange(k, k + p.len()) == p
}

/// Whether `p` occurs somewhere in `s`.
pub open spec fn has_infix<T>(s: Seq<T>, p: Seq<T>) -> bool {
    exists|k: int| occurs_at(s, p, k)
}

/// The decimal digit for `d < 10`.
pub open spec fn digit_char(d: nat) -> char {
    (('0' as u32) + d) as char
}

/// The decimal writing of `n`, as `Display` writes an unsigned integer.
pub open spec fn decimal(n: nat) -> Seq<char>
    decreases n,
{
    if n < 10 {
        seq![digit_char(n)]
    } else {
        decimal(n / 10).push(digit_char(n % 10))
    }
}

/// The text of one decimal digit.
fn digit_text(d: u64) -> (r: &'static str)
    requires
        d < 10,
    ensures
        r@ == seq![digit_char(d as nat)],
{
    let digits = "0123456789";
    proof {
        reveal_strlit("0123456789");
    }
    let r = digits.substring_char(d as usize, d as usize + 1);
    assert(r@ =~= seq![digit_char(d as nat)]);
    r
}

/// Appends the decimal writing of `n`.
pub fn append_decimal(out: &mut String, n: u64)
    ensures
        final(out)@ == old(out)@ + decimal(n as nat),
    decreases n,
{
    if n >= 10 {
        append_decimal(out, n / 10);
    }
    out.append(digit_text(n % 10));
    assert(out@ =~= old(out)@ + decimal(n as nat));
}

/// How `str::parse::<u32>` fails.
#[derive(Debug, Clone, Copy, PartialEq, Eq, Structural)]
pub enum NumError {
    Empty,
    InvalidDigit,
    Overflow,
}

/// The digits `d`, read after the value `acc`, left to right: the first
/// non-digit is an invalid digit, and a value past `u32::MAX` an overflow.
pub open spec fn dec_digits(d: Seq<char>, acc: int) -> Result<u32, NumError>
    decreases d.len(),
{
    if d.len() == 0 {
        Ok(acc as u32)
    } else if '0' <= d[0] <= '9' {
        let x = d[0] as int - '0' as int;
        if acc * 10 + x > u32::MAX {
            Err(NumError::Overflow)
        } else {
            dec_digits(d.drop_first(), acc * 10 + x)
        }
    } else {
        Err(NumError::InvalidDigit)
    }
}

/// `str::parse::<u32>`: an optional `+`, then one or more decimal digits
/// whose value fits in 32 bits.
pub open spec fn parse_u32(s: Seq<char>) -> Result<u32, NumError> {
    if s.len() == 0 {
        Err(NumError::Empty)
    } else if s == seq!['+'] || s == seq!['-'] {
        Err(NumError::InvalidDigit)
    } else if s[0] == '+' {
        dec_digits(s.drop_first(), 0)
    } else {
        dec_digits(s, 0)
    }
}

/// `str::parse::<u32>`, over characters.
pub fn parse_u32_chars(s: &[char]) -> (r: Result<u32, NumError>)
    ensures
        r == parse_u32(s@),
{
    let n = s.len();
    if n == 0 {
        return Err(NumError::Empty);
    }
    if n == 1 && (s[0] == '+' || s[0] == '-') {
        assert(s@ =~= seq![s@[0]]);
        return Err(NumError::InvalidDigit);
    }
    proof {
        if s@ == seq!['+'] || s@ == seq!['-'] {
            assert(s@.len() == 1);
        }
    }
    let mut k: usize = if s[0] == '+' { 1 } else { 0 };
    let ghost d = s@.subrange(k as int, n as int);
    assert(d =~= (if s@[0] == '+' { s@.drop_first() } else { s@ }));
    let mut acc: u32 = 0;
    assert(parse_u32(s@) == dec_digits(d, 0));
    while k < n
        invariant
            n == s@.len(),
            k <= n,
            parse_u32(s@) == dec_digits(d, 0),
            dec_digits(d, 0) == dec_digits(s@.subrange(k as int, n as int), acc as int),
        decreases n - k,
    {
        let ghost rest = s@.subrange(k as int, n as int);
        assert(rest[0] == s@[k as int]);
        assert(rest.drop_first() =~= s@.subrange(k + 1, n as int));
        let c = s[k];
        if !('0' <= c && c <= '9') {
            return Err(NumError::InvalidDigit);
        }
        let x = (c as u32) - ('0' as u32);
        if acc > (u32::MAX - x) / 10 {
            assert(acc * 10 + x > u32::MAX) by (nonlinear_arith)
                requires
                    acc > (u32::MAX - x) / 10,
                    x <= 9,
            ;
            return Err(NumError::Overflow);
        }
        proof {
            assert(acc * 10 + x <= u32::MAX) by (nonlinear_arith)
                requires
                    acc <= (u32::MAX - x) / 10,
                    x <= 9,
            ;
        }
        acc = acc * 10 + x;
        k += 1;
    }
    assert(s@.subrange(n as int, n as int) =~= Seq::<char>::empty());
    Ok(acc)
}

/// The characters of a string slice, in order.
pub fn str_chars(s: &str) -> (v: Vec<char>)
    ensures
        v@ == s@,
{
    let mut v: Vec<char> = Vec::new();
    for c in it: s.chars()
        invariant
            v@ == it.seq().take(it.index() as int),
    {
        v.push(c);
    }
    v
}

/// `char::is_whitespace`.
pub fn white_space(c: char) -> (r: bool)
    ensures
        r == is_white_space(c),
{
    let u = c as u32;
    (0x09 <= u && u <= 0x0d) || u == 0x20 || u == 0x85 || u == 0xa0 || u == 0x1680 || (0x2000
        <= u && u <= 0x200a) || u == 0x2028 || u == 0x2029 || u == 0x202f || u == 0x205f || u
        == 0x3000
}

proof fn lemma_trim_start_step(s: Seq<char>, a: int)
    requires
        0 <= a < s.len(),
        is_white_space(s[a]),
    ensures
        trim_start(s.subrange(a, s.len() as int)) == trim_start(s.subrange(a + 1, s.len() as int)),
{
    assert(s.subrange(a, s.len() as int).drop_first() =~= s.subrange(a + 1, s.len() as int));
}

proof fn lemma_trim_end_step(s: Seq<char>, a: int, b: int)
    requires
        0 <= a < b <= s.len(),
        is_white_space(s[b - 1]),
    ensures
        trim_end(s.subrange(a, b)) == trim_end(s.subrange(a, b - 1)),
{
    assert(s.subrange(a, b).drop_last() =~= s.subrange(a, b - 1));
}

/// The bounds `(a, b)` with `s[a..b]` equal to `trim(s)`.
pub fn trim_bounds(s: &[char]) -> (r: (usize, usize))
    ensures
        r.0 <= r.1 <= s@.len(),
        s@.subrange(r.0 as int, r.1 as int) == trim(s@),
{
    let n = s.len();
    let mut a: usize = 0;
    assert(s@.subrange(0, n as int) =~= s@);
    while a < n && white_space(s[a])
        invariant
            a <= n == s@.len(),
            trim_start(s@) == trim_start(s@.subrange(a as int, n as int)),
        decreases n - a,
    {
        proof {
            lemma_trim_start_step(s@, a as int);
        }
        a += 1;
    }
    let ghost t = s@.subrange(a as int, n as int);
    assert(trim_start(s@) == t);
    let mut b: usize = n;
    while b > a && white_space(s[b - 1])
        invariant
            a <= b <= n == s@.len(),
            t == s@.subrange(a as int, n as int),
            trim_end(t) == trim_end(s@.subrange(a as int, b as int)),
        decreases b - a,
    {
        proof {
            lemma_trim_end_step(s@, a as int, b as int);
        }
        b -= 1;
    }
    (a, b)
}

/// Whether `p` occurs in `s` at position `k`.
pub fn matches_at(s: &[char], p: &[char], k: usize) -> (r: bool)
    ensures
        r == occurs_at(s@, p@, k as int),
{
    if k > s.len() || p.len() > s.len() - k {
        return false;
    }
    let mut j: usize = 0;
    while j < p.len()
        invariant
            s@.len() == s.len(),
            p@.len() == p.len(),
            k + p@.len() <= s@.len(),
            j <= p@.len(),
            forall|i: int| 0 <= i < j ==> s@[k + i] == p@[i],
        decreases p@.len() - j,
    {
        if s[k + j] != p[j] {
            assert(s@.subrange(k as int, k + p@.len())[j as int] != p@[j as int]);
            return false;
        }
        j += 1;
    }
    assert(s@.subrange(k as int, k + p@.len()) =~= p@);
    true
}

/// `str::starts_with`, over characters.
pub fn starts_with(s: &[char], p: &[char]) -> (r: bool)
    ensures
        r == has_prefix(s@, p@),
{
    matches_at(s, p, 0)
}

/// `str::ends_with`, over characters.
pub fn ends_with(s: &[char], p: &[char]) -> (r: bool)
    ensures
        r == has_suffix(s@, p@),
{
    if p.len() > s.len() {
        false
    } else {
        matches_at(s, p, s.len() - p.len())
    }
}

/// `str::contains`, over characters.
pub fn contains(s: &[char], p: &[char]) -> (r: bool)
    ensures
        r == has_infix(s@, p@),
{
    if p.len() > s.len() {
        assert forall|k: int| !occurs_at(s@, p@, k) by {}
        return false;
    }
    let last = s.len() - p.len();
    let mut k: usize = 0;
    loop
        invariant
            last + p@.len() == s@.len(),
            k <= last,
            forall|i: int| 0 <= i < k ==> !occurs_at(s@, p@, i),
        ensures
            forall|i: int| 0 <= i <= last ==> !occurs_at(s@, p@, i),
        decreases last - k,
    {
        if matches_at(s, p, k) {
            return true;
        }
        if k == last {
            break;
        }
        k += 1;
    }
    assert forall|i: int| !occurs_at(s@, p@, i) by {
        if 0 <= i <= last {
        }
    }
    false
}

/// Whether `s` and `p` hold the same characters.
pub fn same_chars(s: &[char], p: &[char]) -> (r: bool)
    ensures
        r == (s@ == p@),
{
    if s.len() != p.len() {
        return false;
    }
    let r = matches_at(s, p, 0);
    assert(s@.subrange(0, p@.len() as int) =~= s@);
    r
}

} // verus!
