//! Repairing the index of a patch archive: every file keeps the offsets
//! and lengths of its segments as they are stored, with an empty prefix in
//! place of whatever was pickled there. Reading and writing the archive is
//! left to the caller.

use vstd::prelude::*;

use crate::rpa::archive::{key_name, PickleKey, PickleValue};
use crate::rpa::error::RpaError;
use crate::rpa::pickle::{parse_pickle, pickle_repaired, pickled_repaired, unpickle};
use crate::zlib::{deflate, zlib_deflate};
use crate::rpa::header::{parse_hex, parse_hex_chars, words, HexError};
use crate::rpa::sorted::{
    keys_of, lemma_slot_view, lemma_sorted_put_at, lemma_sorted_put_sorted, names_in, slot, sorted_put,
};
use crate::rpa::vfs::strictly_sorted;
use crate::strings::lossy_string;
use crate::text::{has_prefix, starts_with, str_chars};

verus! {

/// A stored number as the repair reads it: an integer's unsigned value,
/// 0 for anything else.
pub open spec fn raw_number(v: PickleValue) -> u64 {
    match v {
        PickleValue::I64(x) => x as u64,
        _ => 0,
    }
}

/// The (offset, length) pairs kept from a list of segments: the first two
/// items of each tuple that has at least two, in order.
pub open spec fn kept_pairs(vs: Seq<PickleValue>) -> Seq<(u64, u64)>
    decreases vs.len(),
{
    if vs.len() == 0 {
        seq![]
    } else {
        let rest = kept_pairs(vs.drop_last());
        match vs.last() {
            PickleValue::Tuple(t) => if t@.len() >= 2 {
                rest.push((raw_number(t@[0]), raw_number(t@[1])))
            } else {
                rest
            },
            _ => rest,
        }
    }
}

/// The pairs kept from a file's value: those of a list; nothing otherwise.
pub open spec fn value_pairs(v: PickleValue) -> Seq<(u64, u64)> {
    match v {
        PickleValue::List(l) => kept_pairs(l@),
        _ => seq![],
    }
}

/// The repaired index of dictionary entries taken in order: each file with
/// a name and at least one kept pair, in name order, a later entry of a
/// name replacing an earlier one.
pub open spec fn repaired(d: Seq<(PickleKey, PickleValue)>) -> Seq<(Seq<char>, Seq<(u64, u64)>)>
    decreases d.len(),
{
    if d.len() == 0 {
        seq![]
    } else {
        let acc = repaired(d.drop_last());
        match key_name(d.last().0) {
            None => acc,
            Some(n) => {
                let pairs = value_pairs(d.last().1);
                if pairs.len() == 0 {
                    acc
                } else {
                    sorted_put(acc, (n, pairs))
                }
            },
        }
    }
}

/// Repaired entries as values.
pub open spec fn repaired_view(v: Seq<(String, Vec<(u64, u64)>)>) -> Seq<(Seq<char>, Seq<(u64, u64)>)> {
    v.map_values(|e: (String, Vec<(u64, u64)>)| (e.0@, e.1@))
}

/// The pairs kept from a file's value.
fn pairs_of(v: &PickleValue) -> (r: Vec<(u64, u64)>)
    ensures
        r@ == value_pairs(*v),
{
    let mut out: Vec<(u64, u64)> = Vec::new();
    match v {
        PickleValue::List(l) => {
            let mut k: usize = 0;
            while k < l.len()
                invariant
                    k <= l@.len(),
                    out@ == kept_pairs(l@.subrange(0, k as int)),
                decreases l@.len() - k,
            {
                assert(l@.subrange(0, k + 1).drop_last() =~= l@.subrange(0, k as int));
                assert(l@.subrange(0, k + 1).last() == l@[k as int]);
                match &l[k] {
                    PickleValue::Tuple(t) => {
                        if t.len() >= 2 {
                            let o = match &t[0] {
                                PickleValue::I64(x) => *x as u64,
                                _ => 0,
                            };
                            let n = match &t[1] {
                                PickleValue::I64(x) => *x as u64,
                                _ => 0,
                            };
                            out.push((o, n));
                        }
                    },
                    _ => {},
                }
                k += 1;
            }
            assert(l@.subrange(0, l@.len() as int) =~= l@);
        },
        _ => {},
    }
    out
}

/// The repaired index of an unpickled archive index: every file with at
/// least one segment tuple, in name order, each segment as its stored
/// offset and length. A root that is not a dictionary gives an empty index.
pub fn repaired_index(root: &PickleValue) -> (r: Vec<(String, Vec<(u64, u64)>)>)
    ensures
        match *root {
            PickleValue::Dict(d) => repaired_view(r@) == repaired(d@),
            _ => r@.len() == 0,
        },
        strictly_sorted(names_in(r@)),
{
    let mut out: Vec<(String, Vec<(u64, u64)>)> = Vec::new();
    assert(names_in(out@) =~= Seq::<Seq<char>>::empty());
    let dict = match root {
        PickleValue::Dict(d) => d,
        _ => {
            return out;
        },
    };
    let mut k: usize = 0;
    while k < dict.len()
        invariant
            k <= dict@.len(),
            repaired_view(out@) == repaired(dict@.subrange(0, k as int)),
            strictly_sorted(names_in(out@)),
        decreases dict@.len() - k,
    {
        assert(dict@.subrange(0, k + 1).drop_last() =~= dict@.subrange(0, k as int));
        assert(dict@.subrange(0, k + 1).last() == dict@[k as int]);
        let (key, value) = &dict[k];
        let name = match key {
            PickleKey::Str(s) => Some(s.clone()),
            PickleKey::Bytes(b) => Some(lossy_string(b.as_slice())),
            PickleKey::Other => None,
        };
        match name {
            None => {},
            Some(name) => {
                let pairs = pairs_of(value);
                if pairs.len() > 0 {
                    let ghost before = repaired_view(out@);
                    let ghost e = (name@, pairs@);
                    let (p, found) = slot(&out, &name);
                    proof {
                        lemma_slot_view(out@, before, name@, p as int);
                        lemma_sorted_put_at(before, e, p as int);
                        lemma_sorted_put_sorted(before, e, p as int);
                    }
                    if found {
                        out.set(p, (name, pairs));
                        assert(repaired_view(out@) =~= before.update(p as int, e));
                    } else {
                        out.insert(p, (name, pairs));
                        assert(repaired_view(out@) =~= before.insert(p as int, e));
                    }
                    assert(names_in(out@) =~= keys_of(repaired_view(out@)));
                }
            },
        }
        k += 1;
    }
    assert(dict@.subrange(0, dict@.len() as int) =~= dict@);
    out
}

/// What the repair reads from a header: at least three words, the first
/// starting with `RPA-3.0`; then the second and the third as hexadecimal
/// numbers, the index offset and the key. `None` where the header is not
/// one.
pub open spec fn repair_header_of(line: Seq<char>) -> Option<(Result<u64, HexError>, Result<u64, HexError>)> {
    let w = words(line);
    if w.len() < 3 || !has_prefix(w[0], "RPA-3.0"@) {
        None
    } else {
        Some((parse_hex(w[1]), parse_hex(w[2])))
    }
}

/// Reads the index offset and the key from a header line as the repair
/// does (leading and trailing white space separate no word).
pub fn repair_header(line: &str) -> (r: Option<(Result<u64, HexError>, Result<u64, HexError>)>)
    ensures
        r == repair_header_of(line@),
{
    let cv = str_chars(line);
    let cs = cv.as_slice();
    let bounds = crate::rpa::header::word_bounds(cs);
    if bounds.len() < 3 {
        return None;
    }
    let (a0, b0) = bounds[0];
    let tag = str_chars("RPA-3.0");
    if !starts_with(&cs[a0..b0], tag.as_slice()) {
        return None;
    }
    let (a1, b1) = bounds[1];
    let (a2, b2) = bounds[2];
    let offset = parse_hex_chars(&cs[a1..b1]);
    let key = parse_hex_chars(&cs[a2..b2]);
    Some((offset, key))
}

/// The repaired entries of an unpickled index: those of a dictionary;
/// none for any other root.
pub open spec fn repaired_root(root: PickleValue) -> Seq<(Seq<char>, Seq<(u64, u64)>)> {
    match root {
        PickleValue::Dict(d) => repaired(d@),
        _ => seq![],
    }
}

/// The repaired index of a decompressed archive index, pickled and
/// compressed again: the index is unpickled, each file keeps its stored
/// offsets and lengths with an empty byte-string prefix, and the result is
/// pickled and zlib-compressed. Returns the bytes and the number of files.
pub fn repair_index_bytes(decompressed: &[u8]) -> (r: Result<(Vec<u8>, usize), RpaError>)
    ensures
        match unpickle(decompressed@) {
            None => r matches Err(RpaError::Pickle(_)),
            Some(root) => match pickled_repaired(repaired_root(root)) {
                None => r matches Err(RpaError::Pickle(_)),
                Some(p) => match zlib_deflate(p) {
                    Some(c) => r matches Ok((b, n)) && b@ == c && n == repaired_root(root).len(),
                    None => r matches Err(RpaError::Io(_)),
                },
            },
        },
{
    let root = match parse_pickle(decompressed) {
        Ok(v) => v,
        Err(m) => {
            return Err(RpaError::Pickle(m));
        },
    };
    let entries = repaired_index(&root);
    assert(repaired_view(entries@) =~= repaired_root(root));
    let pickled = match pickle_repaired(&entries) {
        Ok(p) => p,
        Err(m) => {
            return Err(RpaError::Pickle(m));
        },
    };
    match deflate(pickled.as_slice()) {
        Ok(c) => Ok((c, entries.len())),
        Err(e) => Err(RpaError::Io(e)),
    }
}

} // verus!
