//! Writing a patch archive: the header line, the places of the files that
//! follow it, and the index that names them. Writing the bytes out is left
//! to the caller.

use vstd::prelude::*;
use vstd::string::{StrSliceExecFns, StringExecFns};

use crate::rpa::header::{
    hex_digit, hex_digits, header_of, lemma_words_skip, lemma_words_take, parse_hex, words, xor_keys,
    HeaderResult, RpaVersion,
};
use crate::rpa::archive::{
    index_of, lemma_name_index_some, name_index, upsert, EntryView, PickleKey, PickleValue,
    SegmentView,
};
use crate::rpa::sorted::{
    keys_of, lemma_slot_view, lemma_sorted_put_at, lemma_sorted_put_sorted, names_in, slot, sorted_put,
};
use crate::rpa::vfs::{lemma_bytes_lt_irreflexive, strictly_sorted, text_lt};
use crate::rpa::error::RpaError;
use crate::rpa::pickle::{entry_triples, pickle_entries, pickled_entries};
use crate::strings::slashes;
use crate::zlib::{deflate, zlib_deflate};
use crate::rpa::vfs::ascii_lower;
use crate::text::{ends_with, has_prefix, has_suffix, is_white_space, starts_with, str_chars};
use vstd::utf8::encode_utf8;

verus! {

/// A lower-case hexadecimal digit.
pub open spec fn hex_char(d: int) -> char {
    if d < 10 {
        ('0' as int + d) as char
    } else {
        ('a' as int + d - 10) as char
    }
}

/// The lowest `n` hexadecimal digits of `x`, most significant first.
pub open spec fn hex_fixed(x: nat, n: nat) -> Seq<char>
    decreases n,
{
    if n == 0 {
        seq![]
    } else {
        hex_fixed(x / 16, (n - 1) as nat).push(hex_char((x % 16) as int))
    }
}

/// `x` as `{:016x}` writes it: sixteen lower-case hexadecimal digits.
pub open spec fn hex16(x: u64) -> Seq<char> {
    hex_fixed(x as nat, 16)
}

/// The header line of a patch archive whose index starts at `offset`.
pub open spec fn header_line(offset: u64, key: u64) -> Seq<char> {
    "RPA-3.0 "@ + hex16(offset) + " "@ + hex16(key) + "\n"@
}

/// Sixteen to the power `n`.
pub open spec fn pow16(n: nat) -> nat
    decreases n,
{
    if n == 0 {
        1
    } else {
        16 * pow16((n - 1) as nat)
    }
}

/// The text of one hexadecimal digit.
fn hex_digit_text(d: u64) -> (r: &'static str)
    requires
        d < 16,
    ensures
        r@ == seq![hex_char(d as int)],
{
    let digits = "0123456789abcdef";
    proof {
        reveal_strlit("0123456789abcdef");
    }
    let r = digits.substring_char(d as usize, d as usize + 1);
    assert(r@ =~= seq![hex_char(d as int)]);
    r
}

/// Appends the lowest `n` hexadecimal digits of `x`.
fn append_hex(out: &mut String, x: u64, n: usize)
    ensures
        final(out)@ == old(out)@ + hex_fixed(x as nat, n as nat),
    decreases n,
{
    if n > 0 {
        append_hex(out, x / 16, n - 1);
        out.append(hex_digit_text(x % 16));
        assert(hex_fixed(x as nat, n as nat) == hex_fixed((x / 16) as nat, (n - 1) as nat).push(
            hex_char((x % 16) as int),
        ));
        assert(out@ =~= old(out)@ + hex_fixed(x as nat, n as nat));
    } else {
        assert(out@ =~= old(out)@ + hex_fixed(x as nat, n as nat));
    }
}

/// The header line of a patch archive: `RPA-3.0`, the index offset and
/// the key, each in sixteen hexadecimal digits, and a line feed.
pub fn archive_header(index_offset: u64, key: u64) -> (r: String)
    ensures
        r@ == header_line(index_offset, key),
        r@.len() == HEADER_LEN,
{
    proof {
        lemma_hex_fixed_chars(index_offset as nat, 16);
        lemma_hex_fixed_chars(key as nat, 16);
        reveal_strlit("RPA-3.0 ");
        reveal_strlit(" ");
        reveal_strlit("\n");
    }
    let mut s = String::from_str("RPA-3.0 ");
    append_hex(&mut s, index_offset, 16);
    s.append(" ");
    append_hex(&mut s, key, 16);
    s.append("\n");
    s
}

/// A digit reads back as its value, and is not white space.
proof fn lemma_hex_char(d: int)
    requires
        0 <= d < 16,
    ensures
        hex_digit(hex_char(d)) == Some(d),
        !is_white_space(hex_char(d)),
        hex_char(d) != '+',
{
}

/// The digits of `hex_fixed` are `n` hexadecimal digits.
proof fn lemma_hex_fixed_chars(x: nat, n: nat)
    ensures
        hex_fixed(x, n).len() == n,
        forall|i: int|
            0 <= i < n ==> #[trigger] hex_digit(hex_fixed(x, n)[i]) is Some && !is_white_space(
                hex_fixed(x, n)[i],
            ) && hex_fixed(x, n)[i] != '+',
    decreases n,
{
    if n > 0 {
        lemma_hex_fixed_chars(x / 16, (n - 1) as nat);
        lemma_hex_char((x % 16) as int);
        let s = hex_fixed(x, n);
        let t = hex_fixed(x / 16, (n - 1) as nat);
        assert forall|i: int| 0 <= i < n implies #[trigger] hex_digit(s[i]) is Some && !is_white_space(
            s[i],
        ) && s[i] != '+' by {
            if i < n - 1 {
                assert(s[i] == t[i]);
                assert(hex_digit(t[i]) is Some);
            }
        }
    }
}

/// Reading one more digit after digits that did not overflow.
proof fn lemma_hex_digits_push(s: Seq<char>, c: char, acc: int, v: u64, d: int)
    requires
        0 <= acc <= u64::MAX,
        hex_digits(s, acc) == Ok::<u64, crate::rpa::header::HexError>(v),
        hex_digit(c) == Some(d),
        v * 16 + d <= u64::MAX,
    ensures
        hex_digits(s.push(c), acc) == Ok::<u64, crate::rpa::header::HexError>((v * 16 + d) as u64),
    decreases s.len(),
{
    if s.len() == 0 {
        assert(s.push(c).drop_first() =~= Seq::<char>::empty());
        assert(v == acc);
        assert(s.push(c)[0] == c);
        assert(hex_digits(Seq::<char>::empty(), acc * 16 + d) == Ok::<u64, crate::rpa::header::HexError>(
            (acc * 16 + d) as u64,
        ));
    } else {
        let x = hex_digit(s[0])->0;
        assert(s.push(c).drop_first() =~= s.drop_first().push(c));
        assert(s.push(c)[0] == s[0]);
        assert(acc * 16 + x <= u64::MAX);
        lemma_hex_digits_push(s.drop_first(), c, acc * 16 + x, v, d);
    }
}

/// Sixteen digits suffice for every 64-bit value.
proof fn lemma_pow16_16()
    ensures
        pow16(16) == 0x1_0000_0000_0000_0000,
{
    reveal_with_fuel(pow16, 17);
}

/// The digits of a value below sixteen to the power `n` read back as it.
proof fn lemma_hex_fixed_value(x: nat, n: nat)
    requires
        x < pow16(n),
        x <= u64::MAX,
    ensures
        hex_digits(hex_fixed(x, n), 0) == Ok::<u64, crate::rpa::header::HexError>(x as u64),
    decreases n,
{
    if n == 0 {
        assert(hex_fixed(x, n) =~= Seq::<char>::empty());
    } else {
        let q = x / 16;
        let r = x % 16;
        assert(q < pow16((n - 1) as nat));
        lemma_hex_fixed_value(q, (n - 1) as nat);
        lemma_hex_char(r as int);
        assert(q * 16 + r == x);
        lemma_hex_digits_push(hex_fixed(q, (n - 1) as nat), hex_char(r as int), 0, q as u64, r as int);
    }
}

/// Sixteen hexadecimal digits read back as the value they were written from.
pub proof fn lemma_hex16_reads_back(x: u64)
    ensures
        parse_hex(hex16(x)) == Ok::<u64, crate::rpa::header::HexError>(x),
{
    lemma_pow16_16();
    lemma_hex_fixed_value(x as nat, 16);
    lemma_hex_fixed_chars(x as nat, 16);
    let s = hex16(x);
    assert(s[0] != '+');
    assert(s != seq!['+']);
    assert(s != seq!['-']) by {
        assert(s.len() == 16);
    }
}

/// The header line a patch archive is written with reads back as an
/// RPA-3 header with the index offset and the key it was written with.
pub proof fn law_header_reads_back(offset: u64, key: u64)
    ensures
        header_of(header_line(offset, key)) == HeaderResult::Parsed(RpaVersion::Rpa3, offset, key),
{
    reveal_strlit("RPA-3.0 ");
    reveal_strlit("RPA-3.2 ");
    reveal_strlit("RPA-2.0 ");
    reveal_strlit(" ");
    reveal_strlit("\n");
    reveal_strlit("RPA-3.0");
    let a = "RPA-3.0 "@;
    let o = hex16(offset);
    let k = hex16(key);
    let line = header_line(offset, key);
    lemma_hex_fixed_chars(offset as nat, 16);
    lemma_hex_fixed_chars(key as nat, 16);
    assert(line.len() == 42);
    assert(line.subrange(0, 8) =~= a);
    assert(forall|i: int| 8 <= i < 24 ==> line[i] == o[i - 8]);
    assert(forall|i: int| 25 <= i < 41 ==> line[i] == k[i - 25]);
    assert(line[7] == ' ' && line[24] == ' ' && line[41] == '\n');
    assert(forall|i: int| 0 <= i < 7 ==> !is_white_space(#[trigger] line[i]));
    assert(forall|i: int| 8 <= i < 24 ==> !is_white_space(#[trigger] line[i])) by {
        assert forall|i: int| 8 <= i < 24 implies !is_white_space(#[trigger] line[i]) by {
            assert(line[i] == o[i - 8]);
            assert(hex_digit(o[i - 8]) is Some);
        }
    }
    assert(forall|i: int| 25 <= i < 41 ==> !is_white_space(#[trigger] line[i])) by {
        assert forall|i: int| 25 <= i < 41 implies !is_white_space(#[trigger] line[i]) by {
            assert(line[i] == k[i - 25]);
            assert(hex_digit(k[i - 25]) is Some);
        }
    }
    assert(line.subrange(0, 42) =~= line);
    lemma_words_take(line, 0, 7);
    lemma_words_skip(line, 7);
    lemma_words_take(line, 8, 24);
    lemma_words_skip(line, 24);
    lemma_words_take(line, 25, 41);
    lemma_words_skip(line, 41);
    let empty = line.subrange(42, 42);
    assert(empty =~= Seq::<char>::empty());
    assert(words(empty) =~= Seq::<Seq<char>>::empty());
    assert(line.subrange(8, 24) =~= o);
    assert(line.subrange(25, 41) =~= k);
    let parts = words(line);
    assert(parts =~= seq![line.subrange(0, 7), o, k]);
    assert(!has_prefix(line, "RPA-3.2 "@)) by {
        assert(line.subrange(0, 8)[6] != "RPA-3.2 "@[6]);
    }
    assert(has_prefix(line, "RPA-3.0 "@));
    lemma_hex16_reads_back(offset);
    lemma_hex16_reads_back(key);
    let rest = parts.subrange(2, parts.len() as int);
    assert(rest =~= seq![k]);
    assert(rest.drop_last() =~= Seq::<Seq<char>>::empty());
    assert(0u64 ^ key == key) by (bit_vector);
    assert(xor_keys(rest.drop_last()) == 0);
    assert(rest.last() == k);
    assert(xor_keys(rest) == key);
    assert(parts[1] == o);
    assert(parts.len() == 3);
}

/// The length of the header line, where the first file starts.
pub const HEADER_LEN: u64 = 42;

/// The files of a patch archive as values: names in order, each with the
/// offset and length of its data.
pub open spec fn files_view(v: Seq<(String, (u64, u64))>) -> Seq<(Seq<char>, (u64, u64))> {
    v.map_values(|e: (String, (u64, u64))| (e.0@, e.1))
}

/// Whether the data of the files lie after the header line and before
/// `next_offset`, no two of them overlapping.
pub open spec fn laid_out(files: Seq<(Seq<char>, (u64, u64))>, next_offset: u64) -> bool {
    &&& HEADER_LEN <= next_offset
    &&& forall|i: int|
        0 <= i < files.len() ==> HEADER_LEN <= (#[trigger] files[i]).1.0 && files[i].1.0 + files[i].1.1
            <= next_offset
    &&& forall|i: int, j: int|
        0 <= i < files.len() && 0 <= j < files.len() && i != j ==> (#[trigger] files[i]).1.0
            + files[i].1.1 <= (#[trigger] files[j]).1.0 || files[j].1.0 + files[j].1.1 <= files[i].1.0
}

/// The index entries of a patch archive: each file's name with its offset
/// and length exclusive-or'ed with the key, in name order.
pub open spec fn patch_triples(v: PatchView) -> Seq<(Seq<char>, u64, u64)> {
    v.files.map_values(|f: (Seq<char>, (u64, u64))| (f.0, f.1.0 ^ v.key, f.1.1 ^ v.key))
}

/// Abstract contents of a [`PatchIndex`].
pub struct PatchView {
    pub key: u64,
    pub next_offset: u64,
    pub files: Seq<(Seq<char>, (u64, u64))>,
}

/// The files of a patch archive being written, by name, and where the next
/// file's data goes. The files come after the header line, one after the
/// other; the index follows the last one.
pub struct PatchIndex {
    key: u64,
    next_offset: u64,
    files: Vec<(String, (u64, u64))>,
}

impl View for PatchIndex {
    type V = PatchView;

    closed spec fn view(&self) -> PatchView {
        PatchView { key: self.key, next_offset: self.next_offset, files: files_view(self.files@) }
    }
}

impl PatchIndex {
    /// The files are in strictly increasing name order, and their data lie
    /// apart between the header and the next offset.
    #[verifier::type_invariant]
    closed spec fn well_formed(self) -> bool {
        &&& strictly_sorted(names_in(self.files@))
        &&& laid_out(files_view(self.files@), self.next_offset)
    }

    /// No file yet; the first goes right after the header line.
    pub fn new(key: u64) -> (r: Self)
        ensures
            r@ == (PatchView { key, next_offset: HEADER_LEN, files: seq![] }),
    {
        let r = PatchIndex { key, next_offset: HEADER_LEN, files: Vec::new() };
        assert(r@.files =~= Seq::<(Seq<char>, (u64, u64))>::empty());
        assert(files_view(r.files@) =~= Seq::<(Seq<char>, (u64, u64))>::empty());
        assert(names_in(r.files@) =~= Seq::<Seq<char>>::empty());
        r
    }

    /// The key the offsets and lengths are obfuscated with.
    pub fn key(&self) -> (r: u64)
        ensures
            r == self@.key,
    {
        self.key
    }

    /// Where the next file's data goes; once every file is placed, where
    /// the index goes.
    pub fn next_offset(&self) -> (r: u64)
        ensures
            r == self@.next_offset,
    {
        self.next_offset
    }

    /// Places a file of `length` bytes at the next offset, replacing an
    /// earlier file of the same name in the index (its data stays where it
    /// was written). Returns the file's offset.
    pub fn place(&mut self, name: String, length: u64) -> (offset: u64)
        requires
            old(self)@.next_offset + length <= u64::MAX,
        ensures
            offset == old(self)@.next_offset,
            final(self)@ == (PatchView {
                key: old(self)@.key,
                next_offset: (offset + length) as u64,
                files: sorted_put(old(self)@.files, (name@, (offset, length))),
            }),
    {
        proof {
            use_type_invariant(&*self);
        }
        let offset = self.next_offset;
        let ghost before = files_view(self.files@);
        let ghost e = (name@, (offset, length));
        let (p, found) = slot(&self.files, &name);
        proof {
            lemma_slot_view(self.files@, before, name@, p as int);
            lemma_sorted_put_at(before, e, p as int);
            lemma_sorted_put_sorted(before, e, p as int);
        }
        let mut files: Vec<(String, (u64, u64))> = Vec::new();
        std::mem::swap(&mut files, &mut self.files);
        if found {
            files.set(p, (name, (offset, length)));
            assert(files_view(files@) =~= before.update(p as int, e));
        } else {
            files.insert(p, (name, (offset, length)));
            assert(files_view(files@) =~= before.insert(p as int, e));
        }
        assert(names_in(files@) =~= keys_of(files_view(files@)));
        proof {
            lemma_place_laid_out(before, e, p as int, found, offset, length);
        }
        self.next_offset = offset + length;
        self.files = files;
        offset
    }

    /// The index to pickle: each file's name with its offset and length
    /// exclusive-or'ed with the key, in name order.
    pub fn index_entries(&self) -> (r: Vec<(String, u64, u64)>)
        ensures
            r@.len() == self@.files.len(),
            forall|i: int|
                0 <= i < r@.len() ==> #[trigger] r@[i].0@ == self@.files[i].0 && r@[i].1
                    == self@.files[i].1.0 ^ self@.key && r@[i].2 == self@.files[i].1.1 ^ self@.key,
    {
        let mut out: Vec<(String, u64, u64)> = Vec::new();
        let mut k: usize = 0;
        while k < self.files.len()
            invariant
                k <= self.files@.len(),
                out@.len() == k,
                self@.files == files_view(self.files@),
                self@.key == self.key,
                forall|i: int|
                    0 <= i < k ==> #[trigger] out@[i].0@ == self@.files[i].0 && out@[i].1
                        == self@.files[i].1.0 ^ self@.key && out@[i].2 == self@.files[i].1.1 ^ self@.key,
            decreases self.files@.len() - k,
        {
            let (name, (offset, length)) = &self.files[k];
            out.push((name.clone(), *offset ^ self.key, *length ^ self.key));
            k += 1;
        }
        out
    }

    /// The index as it is stored: the entries of `index_entries`, pickled
    /// and zlib-compressed.
    pub fn encoded_index(&self) -> (r: Result<Vec<u8>, RpaError>)
        ensures
            match pickled_entries(patch_triples(self@)) {
                None => r matches Err(RpaError::Pickle(_)),
                Some(p) => match zlib_deflate(p) {
                    Some(c) => r matches Ok(b) && b@ == c,
                    None => r matches Err(RpaError::Io(_)),
                },
            },
    {
        let entries = self.index_entries();
        assert(entry_triples(entries@) =~= patch_triples(self@));
        let pickled = match pickle_entries(&entries) {
            Ok(p) => p,
            Err(m) => {
                return Err(RpaError::Pickle(m));
            },
        };
        match deflate(pickled.as_slice()) {
            Ok(c) => Ok(c),
            Err(e) => Err(RpaError::Io(e)),
        }
    }

    /// The placed files, in name order, each with its offset and length.
    pub fn files(&self) -> (r: &Vec<(String, (u64, u64))>)
        ensures
            files_view(r@) == self@.files,
            strictly_sorted(keys_of(self@.files)),
            laid_out(self@.files, self@.next_offset),
    {
        proof {
            use_type_invariant(self);
            assert(names_in(self.files@) =~= keys_of(files_view(self.files@)));
        }
        &self.files
    }
}

/// Placing a file at the next offset keeps the data laid out, up to the
/// new next offset.
proof fn lemma_place_laid_out(
    before: Seq<(Seq<char>, (u64, u64))>,
    e: (Seq<char>, (u64, u64)),
    p: int,
    found: bool,
    offset: u64,
    length: u64,
)
    requires
        laid_out(before, offset),
        e.1 == (offset, length),
        offset + length <= u64::MAX,
        0 <= p <= before.len(),
        found ==> p < before.len(),
    ensures
        laid_out(
            if found {
                before.update(p, e)
            } else {
                before.insert(p, e)
            },
            (offset + length) as u64,
        ),
{
    let after = if found {
        before.update(p, e)
    } else {
        before.insert(p, e)
    };
    let next = (offset + length) as u64;
    assert forall|i: int| 0 <= i < after.len() implies HEADER_LEN <= (#[trigger] after[i]).1.0 && after[i].1.0
        + after[i].1.1 <= next by {
        if i == p {
            assert(after[i] == e);
        } else if found || i < p {
            assert(after[i] == before[i]);
        } else {
            assert(after[i] == before[i - 1]);
        }
    }
    assert forall|i: int, j: int|
        0 <= i < after.len() && 0 <= j < after.len() && i != j implies (#[trigger] after[i]).1.0
            + after[i].1.1 <= (#[trigger] after[j]).1.0 || after[j].1.0 + after[j].1.1
            <= after[i].1.0 by {
        let bi = if i == p {
            -1
        } else if found || i < p {
            i
        } else {
            i - 1
        };
        let bj = if j == p {
            -1
        } else if found || j < p {
            j
        } else {
            j - 1
        };
        if bi >= 0 {
            assert(after[i] == before[bi]);
        } else {
            assert(after[i] == e);
        }
        if bj >= 0 {
            assert(after[j] == before[bj]);
        } else {
            assert(after[j] == e);
        }
        if bi >= 0 && bj >= 0 {
            assert(bi != bj);
        }
    }
}

/// What one entry of a patch archive's pickled index reads back as: the
/// file's name, and a list of one tuple of its offset and its length,
/// exclusive-or'ed with the key, as 64-bit integers, and an empty list.
pub open spec fn entry_reads_as(e: (PickleKey, PickleValue), f: (Seq<char>, (u64, u64)), key: u64) -> bool {
    match (e.0, e.1) {
        (PickleKey::Str(s), PickleValue::List(l)) => s@ == f.0 && l@.len() == 1 && match l@[0] {
            PickleValue::Tuple(t) => t@.len() == 3 && match (t@[0], t@[1], t@[2]) {
                (PickleValue::I64(o), PickleValue::I64(n), PickleValue::List(z)) => o as u64 == f.1.0 ^ key
                    && n as u64 == f.1.1 ^ key && z@.len() == 0,
                _ => false,
            },
            _ => false,
        },
        _ => false,
    }
}

/// What the pickled index of a patch archive reads back as: a dictionary
/// with the files' entries in order.
pub open spec fn index_reads_as(d: Seq<(PickleKey, PickleValue)>, files: Seq<(Seq<char>, (u64, u64))>, key: u64) -> bool {
    d.len() == files.len() && forall|i: int| 0 <= i < d.len() ==> #[trigger] entry_reads_as(d[i], files[i], key)
}

/// The archive index entries of placed files: each under its name, with
/// one segment at its offset and of its length, with no prefix.
pub open spec fn entries_read_back(files: Seq<(Seq<char>, (u64, u64))>) -> Seq<EntryView> {
    files.map_values(
        |f: (Seq<char>, (u64, u64))|
            EntryView {
                name: f.0,
                segments: seq![SegmentView { offset: f.1.0, length: f.1.1, prefix: seq![] }],
            },
    )
}

/// An RPA-3 archive reads the index of a patch archive back as the files
/// where they were placed: each name, in order, with one segment at the
/// offset and of the length it was placed with. Names with a backslash are
/// left out: the reader turns backslashes into slashes.
pub proof fn law_index_reads_back(d: Seq<(PickleKey, PickleValue)>, files: Seq<(Seq<char>, (u64, u64))>, key: u64)
    requires
        index_reads_as(d, files, key),
        strictly_sorted(keys_of(files)),
        forall|i: int| 0 <= i < files.len() ==> slashes(#[trigger] files[i].0) == files[i].0,
    ensures
        index_of(d, key, RpaVersion::Rpa3) == entries_read_back(files),
    decreases d.len(),
{
    if d.len() > 0 {
        let n = (d.len() - 1) as int;
        let fs = files.drop_last();
        assert(strictly_sorted(keys_of(fs))) by {
            assert forall|i: int, j: int| 0 <= i < j < keys_of(fs).len() implies text_lt(
                #[trigger] keys_of(fs)[i],
                #[trigger] keys_of(fs)[j],
            ) by {
                assert(keys_of(fs)[i] == keys_of(files)[i]);
                assert(keys_of(fs)[j] == keys_of(files)[j]);
            }
        }
        assert(index_reads_as(d.drop_last(), fs, key)) by {
            assert forall|i: int| 0 <= i < d.drop_last().len() implies #[trigger] entry_reads_as(
                d.drop_last()[i],
                fs[i],
                key,
            ) by {
                assert(entry_reads_as(d[i], files[i], key));
            }
        }
        assert forall|i: int| 0 <= i < fs.len() implies slashes(#[trigger] fs[i].0) == fs[i].0 by {
            assert(slashes(files[i].0) == files[i].0);
        }
        law_index_reads_back(d.drop_last(), fs, key);
        let f = files[n];
        assert(entry_reads_as(d[n], f, key));
        assert(slashes(files[n].0) == files[n].0);
        let idx = index_of(d.drop_last(), key, RpaVersion::Rpa3);
        assert(idx == entries_read_back(fs));
        let (k, v) = d.last();
        let l = v->List_0;
        let t = l@[0]->Tuple_0;
        let o = t@[0]->I64_0;
        let m = t@[1]->I64_0;
        let fo: u64 = f.1.0;
        let fl: u64 = f.1.1;
        assert((fo ^ key) ^ key == fo) by (bit_vector);
        assert((fl ^ key) ^ key == fl) by (bit_vector);
        assert(l@.drop_last() =~= Seq::<PickleValue>::empty());
        let seg = SegmentView { offset: f.1.0, length: f.1.1, prefix: seq![] };
        assert(crate::rpa::archive::segment_of(l@[0], key, RpaVersion::Rpa3) == Some(seg));
        assert(v is List);
        assert(l@.last() == l@[0]);
        assert(crate::rpa::archive::segments_of_list(l@.drop_last(), key, RpaVersion::Rpa3) =~= Seq::<
            SegmentView,
        >::empty());
        assert(crate::rpa::archive::segments_of_list(l@, key, RpaVersion::Rpa3) =~= seq![seg]);
        assert(crate::rpa::archive::entry_segments(v, key, RpaVersion::Rpa3) =~= seq![seg]);
        let e = EntryView { name: f.0, segments: seq![seg] };
        assert(name_index(idx, f.0) is None) by {
            lemma_name_index_some(idx, f.0);
            if name_index(idx, f.0) is Some {
                let i = name_index(idx, f.0)->0;
                assert(idx[i].name == fs[i].0);
                assert(text_lt(keys_of(files)[i], keys_of(files)[n]));
                lemma_bytes_lt_irreflexive(encode_utf8(f.0));
            }
        }
        assert(upsert(idx, e) == idx.push(e));
        assert(entries_read_back(files) =~= entries_read_back(fs).push(e));
    } else {
        assert(entries_read_back(files) =~= Seq::<EntryView>::empty());
    }
}

/// Whether a name ends in `.avif`, in any ASCII case: what lower-casing it
/// and testing for the suffix `.avif` decides (no other character lower-cases
/// to one of these).
pub open spec fn ends_with_avif(s: Seq<char>) -> bool {
    let n = s.len() as int;
    &&& n >= 5
    &&& s[n - 5] == '.'
    &&& ascii_lower(s[n - 4]) == 'a'
    &&& ascii_lower(s[n - 3]) == 'v'
    &&& ascii_lower(s[n - 2]) == 'i'
    &&& ascii_lower(s[n - 1]) == 'f'
}

/// Whether an archive member is an AVIF image to convert.
pub fn is_avif_name(name: &str) -> (r: bool)
    ensures
        r == ends_with_avif(name@),
{
    let cs = str_chars(name);
    let n = cs.len();
    if n < 5 {
        return false;
    }
    let dot = cs[n - 5] == '.';
    let a = cs[n - 4] == 'a' || cs[n - 4] == 'A';
    let v = cs[n - 3] == 'v' || cs[n - 3] == 'V';
    let i = cs[n - 2] == 'i' || cs[n - 2] == 'I';
    let f = cs[n - 1] == 'f' || cs[n - 1] == 'F';
    dot && a && v && i && f
}

/// The name a converted image is stored under: the AVIF name without its
/// five-character extension, followed by `ext`.
pub fn converted_name(name: &str, ext: &str) -> (r: String)
    requires
        ends_with_avif(name@),
    ensures
        r@ == name@.subrange(0, name@.len() - 5) + ext@,
{
    let n = name.unicode_len();
    let mut out = String::from_str(name.substring_char(0, n - 5));
    out.append(ext);
    out
}

/// Whether a file of the game directory is an archive to take images from:
/// its extension is exactly `rpa`, and it is not an earlier patch.
pub open spec fn is_source_archive(file_name: Seq<char>) -> bool {
    &&& has_suffix(file_name, ".rpa"@)
    &&& file_name.len() > 4
    &&& !has_prefix(file_name, "patch_virtues"@)
}

/// Whether a file of the game directory is an archive to take images from.
pub fn is_patch_source(file_name: &str) -> (r: bool)
    ensures
        r == is_source_archive(file_name@),
{
    let cs = str_chars(file_name);
    let s = cs.as_slice();
    let suffix = str_chars(".rpa");
    let prefix = str_chars("patch_virtues");
    ends_with(s, suffix.as_slice()) && cs.len() > 4 && !starts_with(s, prefix.as_slice())
}

} // verus!
