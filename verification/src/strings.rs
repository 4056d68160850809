//! Text handling from std that vstd leaves unspecified: trusted entry
//! points for UTF-8 validation, Unicode lower-casing, lenient decoding,
//! paths and sets of strings, and the verified slash normalization.

use std::collections::HashSet;
use vstd::prelude::*;
use vstd::string::{StrSliceExecFns, StringExecFns, StringSliceAdditionalSpecFns};

use crate::text::str_chars;
use vstd::utf8::*;

verus! {

/// `std::str::from_utf8`: the bytes as a string slice when they are
/// well-formed UTF-8, and `None` otherwise. Its documentation states both:
/// it fails exactly on invalid UTF-8, and the slice it returns is the input.
#[verifier::external_body]
pub(crate) fn utf8_slice(b: &[u8]) -> (r: Option<&str>)
    ensures
        r is Some <==> valid_utf8(b@),
        r matches Some(s) ==> s.spec_bytes() == b@,
{
    std::str::from_utf8(b).ok()
}

/// The characters that a well-formed UTF-8 byte sequence decodes to.
pub proof fn lemma_utf8_slice_chars(s: &str, b: Seq<u8>)
    requires
        s.spec_bytes() == b,
    ensures
        s@ == decode_utf8(b),
        valid_utf8(b),
{
    encode_utf8_decode_utf8(s@);
    encode_utf8_valid_utf8(s@);
}

/// What `str::to_lowercase` makes of a string: the Unicode lower-case
/// mapping of each character, with the context rule for final sigma.
pub uninterp spec fn lowercase(s: Seq<char>) -> Seq<char>;

/// `str::to_lowercase`. Its result is the function `lowercase` of the
/// input's characters; the mapping itself (Unicode's case tables) is not
/// spelled out here.
#[verifier::external_body]
pub(crate) fn to_lowercase(s: &str) -> (r: String)
    ensures
        r@ == lowercase(s@),
{
    s.to_lowercase()
}

/// The texts that a hash set of strings holds.
pub uninterp spec fn set_texts(set: HashSet<String>) -> Set<Seq<char>>;

/// `HashSet::<String>::new`: a set that holds nothing.
#[verifier::external_body]
pub(crate) fn empty_text_set() -> (r: HashSet<String>)
    ensures
        set_texts(r) == Set::<Seq<char>>::empty(),
{
    HashSet::new()
}

/// `HashSet::<String>::insert`: afterwards the set holds the string's text
/// besides what it held (a string of a text it held already leaves it as
/// it was).
#[verifier::external_body]
pub(crate) fn insert_text(set: &mut HashSet<String>, s: String)
    ensures
        set_texts(*final(set)) == set_texts(*old(set)).insert(s@),
{
    set.insert(s);
}

/// `HashSet::<String>::contains`: whether the set holds a string with the
/// same text as `k` (strings hash and compare by their text).
#[verifier::external_body]
pub(crate) fn holds_text(set: &HashSet<String>, k: &str) -> (r: bool)
    ensures
        r == set_texts(*set).contains(k@),
{
    set.contains(k)
}


/// What `String::from_utf8_lossy` makes of a byte sequence: its UTF-8
/// decoding, with each ill-formed part replaced by U+FFFD.
pub uninterp spec fn utf8_lossy(b: Seq<u8>) -> Seq<char>;

/// `String::from_utf8_lossy`, owned. Its documentation states that
/// well-formed UTF-8 comes back unchanged; how ill-formed input is
/// repaired is left to the name `utf8_lossy`.
#[verifier::external_body]
pub(crate) fn lossy_string(b: &[u8]) -> (r: String)
    ensures
        r@ == utf8_lossy(b@),
        valid_utf8(b@) ==> r@ == decode_utf8(b@),
{
    String::from_utf8_lossy(b).to_string()
}

/// `s` with each backslash turned into a forward slash.
pub open spec fn slashes(s: Seq<char>) -> Seq<char> {
    s.map_values(|c: char| if c == '\\' { '/' } else { c })
}

/// Turns every backslash into a slash and keeps every other character, as
/// `str::replace('\\', "/")` does.
pub(crate) fn replace_backslashes(s: &str) -> (r: String)
    ensures
        r@ == slashes(s@),
{
    let cs = str_chars(s);
    let n = cs.len();
    let mut out = String::new();
    let mut a: usize = 0;
    let mut k: usize = 0;
    proof {
        reveal_strlit("/");
    }
    assert(out@ + s@.subrange(0, 0) =~= slashes(s@.subrange(0, 0)));
    while k < n
        invariant
            n == s@.len(),
            cs@ == s@,
            a <= k <= n,
            "/"@ == seq!['/'],
            forall|i: int| a <= i < k ==> s@[i] != '\\',
            out@ + s@.subrange(a as int, k as int) == slashes(s@.subrange(0, k as int)),
        decreases n - k,
    {
        let ghost before = out@;
        assert(s@.subrange(0, k + 1) =~= s@.subrange(0, k as int).push(s@[k as int]));
        assert(slashes(s@.subrange(0, k + 1)) =~= slashes(s@.subrange(0, k as int)).push(
            if s@[k as int] == '\\' {
                '/'
            } else {
                s@[k as int]
            },
        ));
        if cs[k] == '\\' {
            out.append(s.substring_char(a, k));
            out.append("/");
            assert(out@ =~= before + s@.subrange(a as int, k as int) + seq!['/']);
            a = k + 1;
            assert(out@ + s@.subrange(a as int, k + 1) =~= slashes(s@.subrange(0, k + 1)));
        } else {
            assert(s@.subrange(a as int, k + 1) =~= s@.subrange(a as int, k as int).push(s@[k as int]));
            assert(out@ + s@.subrange(a as int, k + 1) =~= slashes(s@.subrange(0, k + 1)));
        }
        k += 1;
    }
    out.append(s.substring_char(a, n));
    assert(s@.subrange(0, n as int) =~= s@);
    out
}

/// What `Path::file_stem` gives for a path: the last component without
/// its last extension, `None` where the path has no file name.
pub uninterp spec fn path_stem(p: Seq<char>) -> Option<Seq<char>>;

/// `std::path::Path::file_stem`, read back as text (lossily, which is
/// exact for a path that came from a `str`). Its result is the name
/// `path_stem`; the component rules of `std::path` are not spelled out.
#[verifier::external_body]
pub(crate) fn file_stem(p: &str) -> (r: Option<String>)
    ensures
        match r {
            Some(s) => path_stem(p@) == Some(s@),
            None => path_stem(p@) is None,
        },
{
    match std::path::Path::new(p).file_stem() {
        Some(s) => Some(s.to_string_lossy().to_string()),
        None => None,
    }
}

} // verus!
