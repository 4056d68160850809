//! Compiled Ren'Py scripts (`.rpyc`): the `RENPY RPC2` slot table and the
//! zlib-compressed pickle it points to.

use std::collections::HashMap;
use vstd::prelude::*;
use vstd::string::StringExecFns;

use crate::bytes::{contains_bytes, le_u32, read_le_u32};
use crate::text::has_infix;
use vstd::utf8::encode_utf8;
use vstd::string::StringSliceAdditionalSpecFns;
use crate::rpyc::error::RpycError;
use crate::zlib::{inflate, zlib_inflate};
use crate::text::{append_decimal, decimal};

verus! {

broadcast use vstd::std_specs::hash::group_hash_axioms;

/// The magic bytes that open a version-2 compiled script.
pub const RPYC2_MAGIC: [u8; 10] = [0x52u8, 0x45, 0x4e, 0x50, 0x59, 0x20, 0x52, 0x50, 0x43, 0x32];

/// The Ren'Py generation a script was compiled by.
#[derive(Debug, Clone, Copy, PartialEq, Eq, Structural)]
pub enum RenpyVersion {
    Renpy8,
    Renpy7,
    Unknown,
}

/// One entry of the slot table: where a slot's data lies in the file.
#[derive(Debug, Clone)]
pub struct Slot {
    pub id: u32,
    pub offset: usize,
    pub length: usize,
}


/// The magic bytes as a sequence: `RENPY RPC2`.
pub open spec fn magic() -> Seq<u8> {
    seq![0x52u8, 0x45, 0x4e, 0x50, 0x59, 0x20, 0x52, 0x50, 0x43, 0x32]
}

/// How reading a compiled script can fail, as the contracts speak of it.
pub enum RpycFault {
    /// Fewer than ten bytes.
    TooShort,
    /// The slot table runs past the end of the file.
    TruncatedTable,
    /// A slot's data would end past the end of the file.
    SlotOutOfBounds,
    /// The table has no slot 1.
    NoSlotOne,
    /// The compressed data does not inflate.
    Inflate,
}

/// Whether an error is the one that a fault is reported as.
pub open spec fn reports(e: RpycError, f: RpycFault) -> bool {
    match f {
        RpycFault::TooShort => e is InvalidMagic,
        RpycFault::TruncatedTable => e is CorruptedSlotTable,
        RpycFault::SlotOutOfBounds => e is CorruptedSlotTable,
        RpycFault::NoSlotOne => e == RpycError::SlotNotFound(1),
        RpycFault::Inflate => e is Decompress,
    }
}

/// The slot table read from byte `pos` on, added to `acc`: entries of
/// twelve bytes (id, offset, length, little-endian) up to an entry with
/// id 0; a later entry for an id replaces an earlier one.
pub open spec fn slot_table(raw: Seq<u8>, pos: int, acc: Map<u32, Slot>) -> Result<Map<u32, Slot>, RpycFault>
    decreases raw.len() - pos,
{
    if pos < 0 || pos + 12 > raw.len() {
        Err(RpycFault::TruncatedTable)
    } else {
        let id = le_u32(raw, pos);
        let start = le_u32(raw, pos + 4);
        let len = le_u32(raw, pos + 8);
        if id == 0 {
            Ok(acc)
        } else if start + len > raw.len() {
            Err(RpycFault::SlotOutOfBounds)
        } else {
            slot_table(
                raw,
                pos + 12,
                acc.insert(id as u32, Slot { id: id as u32, offset: start as usize, length: len as usize }),
            )
        }
    }
}

/// The compressed blob of a file: for a version-2 file the data of slot 1,
/// for any other file the whole file.
pub open spec fn blob_of(raw: Seq<u8>) -> Result<(bool, Map<u32, Slot>, Seq<u8>), RpycFault> {
    if raw.len() < 10 {
        Err(RpycFault::TooShort)
    } else if raw.subrange(0, 10) == magic() {
        match slot_table(raw, 10, Map::empty()) {
            Ok(slots) => if slots.contains_key(1) {
                let s = slots[1];
                Ok((true, slots, raw.subrange(s.offset as int, s.offset + s.length)))
            } else {
                Err(RpycFault::NoSlotOne)
            },
            Err(f) => Err(f),
        }
    } else {
        Ok((false, Map::empty(), raw))
    }
}

/// The four little-endian bytes of a 32-bit value.
pub open spec fn le_bytes(v: u32) -> Seq<u8> {
    seq![(v % 256) as u8, ((v / 256) % 256) as u8, ((v / 65536) % 256) as u8, (v / 16777216) as u8]
}

/// A version-2 compiled script laid out as Ren'Py writes one with a single
/// slot: the magic, a slot-table entry for slot 1 at offset 34 and of the
/// blob's length, the terminating entry, and the compressed blob.
pub open spec fn rpyc2_file(blob: Seq<u8>) -> Seq<u8> {
    magic() + le_bytes(1) + le_bytes(34) + le_bytes(blob.len() as u32) + le_bytes(0) + le_bytes(0)
        + le_bytes(0) + blob
}

/// Four little-endian bytes read back as the value they were written from.
proof fn lemma_le_bytes(raw: Seq<u8>, k: int, v: u32)
    requires
        0 <= k,
        k + 4 <= raw.len(),
        raw.subrange(k, k + 4) == le_bytes(v),
    ensures
        le_u32(raw, k) == v,
{
    assert(raw[k] == le_bytes(v)[0]);
    assert(raw[k + 1] == le_bytes(v)[1]);
    assert(raw[k + 2] == le_bytes(v)[2]);
    assert(raw[k + 3] == le_bytes(v)[3]);
    assert((v % 256) + ((v / 256) % 256) * 256 + ((v / 65536) % 256) * 65536 + (v / 16777216) * 16777216
        == v) by (nonlinear_arith);
}

/// A script laid out with its blob in slot 1 reads back as that blob: the
/// file is version 2, its slot table holds slot 1 alone, at offset 34 and
/// of the blob's length.
pub proof fn law_slot_one_reads_back(blob: Seq<u8>)
    requires
        blob.len() + 34 <= u32::MAX,
    ensures
        blob_of(rpyc2_file(blob)) == Ok::<(bool, Map<u32, Slot>, Seq<u8>), RpycFault>((
            true,
            Map::<u32, Slot>::empty().insert(1, Slot { id: 1, offset: 34, length: blob.len() as usize }),
            blob,
        )),
{
    let raw = rpyc2_file(blob);
    let n = blob.len() as u32;
    assert(raw.len() == 34 + blob.len());
    assert(raw.subrange(0, 10) =~= magic());
    assert(raw.subrange(10, 14) =~= le_bytes(1));
    assert(raw.subrange(14, 18) =~= le_bytes(34));
    assert(raw.subrange(18, 22) =~= le_bytes(n));
    assert(raw.subrange(22, 26) =~= le_bytes(0));
    assert(raw.subrange(34, 34 + blob.len() as int) =~= blob);
    lemma_le_bytes(raw, 10, 1);
    lemma_le_bytes(raw, 14, 34);
    lemma_le_bytes(raw, 18, n);
    lemma_le_bytes(raw, 22, 0);
    let slot = Slot { id: 1, offset: 34, length: n as usize };
    let slots = Map::<u32, Slot>::empty().insert(1, slot);
    assert(slot_table(raw, 22, slots) == Ok::<Map<u32, Slot>, RpycFault>(slots));
    assert(slot_table(raw, 10, Map::empty()) == slot_table(raw, 22, slots));
    assert(slots.contains_key(1));
    assert(slots[1] == slot);
}

/// The version signature of a decompressed script: Ren'Py 8 when it names
/// `renpy.astsupport` or `cbuiltins`, Ren'Py 7 when it names only
/// `c__builtin__`, and Ren'Py 8 when it names none of them.
pub open spec fn version_of(d: Seq<u8>) -> RenpyVersion {
    if has_bytes(d, "renpy.astsupport"@) || has_bytes(d, "cbuiltins"@) {
        RenpyVersion::Renpy8
    } else if has_bytes(d, "c__builtin__"@) {
        RenpyVersion::Renpy7
    } else {
        RenpyVersion::Renpy8
    }
}

/// Every decoded script gets a known version: a payload with neither
/// signature counts as Ren'Py 8.
pub proof fn law_version_always_known(d: Seq<u8>)
    ensures
        version_of(d) != RenpyVersion::Unknown,
        !has_bytes(d, "renpy.astsupport"@) && !has_bytes(d, "cbuiltins"@) && !has_bytes(d, "c__builtin__"@)
            ==> version_of(d) == RenpyVersion::Renpy8,
{
}

/// Whether the UTF-8 encoding of the text `p` occurs in the bytes `d`.
pub open spec fn has_bytes(d: Seq<u8>, p: Seq<char>) -> bool {
    has_infix(d, encode_utf8(p))
}

/// Abstract contents of a compiled script.
pub struct RpycView {
    pub version: RenpyVersion,
    pub is_v2: bool,
    pub slots: Map<u32, Slot>,
    pub compressed: Seq<u8>,
    pub payload: Seq<u8>,
}

/// A compiled script, decompressed.
pub struct RpycFile {
    version: RenpyVersion,
    is_v2: bool,
    slots: HashMap<u32, Slot>,
    raw_payload: Vec<u8>,
    decompressed_payload: Vec<u8>,
}

impl View for RpycFile {
    type V = RpycView;

    closed spec fn view(&self) -> RpycView {
        RpycView {
            version: self.version,
            is_v2: self.is_v2,
            slots: self.slots@,
            compressed: self.raw_payload@,
            payload: self.decompressed_payload@,
        }
    }
}

impl RpycFile {
    /// Reads a compiled script from its bytes: finds the compressed blob
    /// (slot 1 of a version-2 file, the whole file otherwise), inflates it
    /// and detects the Ren'Py version from the result.
    pub fn from_bytes(raw: &[u8]) -> (r: Result<Self, RpycError>)
        ensures
            match blob_of(raw@) {
                Err(f) => r matches Err(e) && reports(e, f),
                Ok((v2, slots, blob)) => match zlib_inflate(blob) {
                    None => r matches Err(e) && reports(e, RpycFault::Inflate),
                    Some(d) => r matches Ok(file) && file@ == (RpycView {
                        version: version_of(d),
                        is_v2: v2,
                        slots,
                        compressed: blob,
                        payload: d,
                    }),
                },
            },
    {
        if raw.len() < 10 {
            return Err(RpycError::InvalidMagic("File is too short".to_owned()));
        }
        let is_v2 = starts_with_magic(raw);
        let mut slots: HashMap<u32, Slot> = HashMap::new();
        let blob: &[u8];
        if is_v2 {
            let n = raw.len();
            let mut position: usize = 10;
            assert(slots@ == Map::<u32, Slot>::empty());
            loop
                invariant_except_break
                    10 <= position <= n,
                    slot_table(raw@, 10, Map::empty()) == slot_table(raw@, position as int, slots@),
                invariant
                    n == raw@.len(),
                    raw@.len() >= 10,
                    raw@.subrange(0, 10) == magic(),
                    forall|k: u32| #[trigger] slots@.contains_key(k) ==> slots@[k].offset
                        + slots@[k].length <= n,
                ensures
                    slot_table(raw@, 10, Map::empty()) == Ok::<Map<u32, Slot>, RpycFault>(slots@),
                decreases n - position,
            {
                let ghost p0 = position as int;
                if n - position < 12 {
                    return Err(RpycError::CorruptedSlotTable("Unexpected end of slot table".to_owned()));
                }
                let slot_id = read_le_u32(raw, position);
                let start = read_le_u32(raw, position + 4);
                let length = read_le_u32(raw, position + 8);
                position += 12;
                if slot_id == 0 {
                    break;
                }
                if start as u64 + length as u64 > n as u64 {
                    let end = start as u64 + length as u64;
                    return Err(RpycError::CorruptedSlotTable(slot_bounds_message(slot_id, start, end, n)));
                }
                slots.insert(slot_id, Slot { id: slot_id, offset: start as usize, length: length as usize });
            }
            let slot1 = slots.get(&1);
            match slot1 {
                None => {
                    return Err(RpycError::SlotNotFound(1));
                },
                Some(s) => {
                    blob = &raw[s.offset..s.offset + s.length];
                },
            }
        } else {
            blob = raw;
        }
        let decompressed_payload = match inflate(blob) {
            Ok(d) => d,
            Err(e) => {
                return Err(RpycError::Decompress(e));
            },
        };
        let version = Self::detect_version(&decompressed_payload);
        Ok(RpycFile { version, is_v2, slots, raw_payload: vstd::slice::slice_to_vec(blob), decompressed_payload })
    }

    /// The Ren'Py version that a decompressed script's signatures point to.
    fn detect_version(decompressed: &[u8]) -> (r: RenpyVersion)
        ensures
            r == version_of(decompressed@),
    {
        let has_astsupport = contains_ascii(decompressed, "renpy.astsupport");
        let has_py3_builtins = contains_ascii(decompressed, "cbuiltins");
        let has_py2_builtins = contains_ascii(decompressed, "c__builtin__");
        if has_astsupport || has_py3_builtins {
            RenpyVersion::Renpy8
        } else if has_py2_builtins {
            RenpyVersion::Renpy7
        } else {
            RenpyVersion::Renpy8
        }
    }

    /// The detected Ren'Py version.
    pub fn version(&self) -> (r: RenpyVersion)
        ensures
            r == self@.version,
    {
        self.version
    }

    /// Whether the file had the version-2 slot table.
    pub fn is_v2(&self) -> (r: bool)
        ensures
            r == self@.is_v2,
    {
        self.is_v2
    }

    /// The slot table, by id.
    pub fn slots(&self) -> (r: &HashMap<u32, Slot>)
        ensures
            r@ == self@.slots,
    {
        &self.slots
    }

    /// The decompressed pickle bytes.
    pub fn decompressed_payload(&self) -> (r: &[u8])
        ensures
            r@ == self@.payload,
    {
        self.decompressed_payload.as_slice()
    }
}

/// Whether the bytes contain the UTF-8 encoding of the text `p`.
fn contains_ascii(d: &[u8], p: &str) -> (r: bool)
    ensures
        r == has_bytes(d@, p@),
{
    contains_bytes(d, p.as_bytes())
}

/// The message for a slot whose data ends past the end of the file.
fn slot_bounds_message(id: u32, start: u32, end: u64, size: usize) -> (r: String)
    ensures
        r@ == "Slot "@ + decimal(id as nat) + " data bounds ["@ + decimal(start as nat) + ".."@
            + decimal(end as nat) + "] exceed file size "@ + decimal(size as nat),
{
    let mut m = String::from_str("Slot ");
    append_decimal(&mut m, id as u64);
    m.append(" data bounds [");
    append_decimal(&mut m, start as u64);
    m.append("..");
    append_decimal(&mut m, end);
    m.append("] exceed file size ");
    append_decimal(&mut m, size as u64);
    m
}

/// Whether the bytes begin with the version-2 magic.
fn starts_with_magic(raw: &[u8]) -> (r: bool)
    requires
        raw@.len() >= 10,
    ensures
        r == (raw@.subrange(0, 10) == magic()),
{
    let m: &[u8] = &RPYC2_MAGIC;
    assert(m@ == magic());
    let mut k: usize = 0;
    while k < 10
        invariant
            raw@.len() >= 10,
            m@ == magic(),
            k <= 10,
            forall|i: int| 0 <= i < k ==> raw@[i] == magic()[i],
        decreases 10 - k,
    {
        if raw[k] != m[k] {
            assert(raw@.subrange(0, 10)[k as int] != magic()[k as int]);
            return false;
        }
        k += 1;
    }
    assert(raw@.subrange(0, 10) =~= magic());
    true
}

} // verus!
