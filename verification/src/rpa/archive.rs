//! The index of an RPA archive: file names mapped to the segments of the
//! archive that hold their data, read from a pickled dictionary.

use vstd::prelude::*;
use vstd::utf8::encode_utf8;
use vstd::string::StringSliceAdditionalSpecFns;

use crate::rpa::error::RpaError;
use crate::rpa::header::RpaVersion;
use crate::strings::{lossy_string, replace_backslashes, slashes, utf8_lossy};
use crate::rpa::pickle::{parse_pickle, unpickle};
use crate::zlib::{inflate, zlib_inflate};

verus! {

/// A dictionary key of a pickle, as far as the index reads it.
#[derive(Debug, Clone)]
pub enum PickleKey {
    Str(String),
    Bytes(Vec<u8>),
    Other,
}

/// A pickled value, as far as the index reads it; every other kind of
/// value is `Other`. Dictionary entries come in the order of the pickle
/// reader's map.
#[derive(Debug)]
pub enum PickleValue {
    I64(i64),
    Bytes(Vec<u8>),
    Str(String),
    List(Vec<PickleValue>),
    Tuple(Vec<PickleValue>),
    Dict(Vec<(PickleKey, PickleValue)>),
    Other,
}

/// A stretch of the archive that holds part of a file, preceded in the
/// file's data by `prefix`.
#[derive(Debug, Clone)]
pub struct Segment {
    pub offset: u64,
    pub length: u64,
    pub prefix: Vec<u8>,
}

/// Abstract contents of a [`Segment`].
pub struct SegmentView {
    pub offset: u64,
    pub length: u64,
    pub prefix: Seq<u8>,
}

impl View for Segment {
    type V = SegmentView;

    open spec fn view(&self) -> SegmentView {
        SegmentView { offset: self.offset, length: self.length, prefix: self.prefix@ }
    }
}

/// A file of the archive and the segments that make up its data.
#[derive(Debug, Clone)]
pub struct FileEntry {
    pub name: String,
    pub segments: Vec<Segment>,
}

/// Abstract contents of a [`FileEntry`].
pub struct EntryView {
    pub name: Seq<char>,
    pub segments: Seq<SegmentView>,
}

impl View for FileEntry {
    type V = EntryView;

    open spec fn view(&self) -> EntryView {
        EntryView { name: self.name@, segments: self.segments@.map_values(|s: Segment| s@) }
    }
}

/// The unsigned reading of a pickled integer.
pub open spec fn item_u64(v: PickleValue) -> Option<u64> {
    match v {
        PickleValue::I64(x) => Some(x as u64),
        _ => None,
    }
}

/// The prefix bytes that a pickled value gives: bytes as they are, a
/// string in UTF-8, anything else nothing.
pub open spec fn prefix_of(v: PickleValue) -> Seq<u8> {
    match v {
        PickleValue::Bytes(b) => b@,
        PickleValue::Str(s) => encode_utf8(s@),
        _ => seq![],
    }
}

/// Whether offsets and lengths of a version are obfuscated with the key.
pub open spec fn keyed(version: RpaVersion) -> bool {
    version == RpaVersion::Rpa3 || version == RpaVersion::Rpa2
}

/// A segment from the items of a tuple or list: offset and length first
/// (exclusive-or'ed with the key in RPA-2 and RPA-3), then an optional
/// prefix.
pub open spec fn segment_of_items(items: Seq<PickleValue>, key: u64, version: RpaVersion) -> Option<SegmentView> {
    if items.len() < 2 {
        None
    } else {
        match (item_u64(items[0]), item_u64(items[1])) {
            (Some(o), Some(l)) => Some(
                SegmentView {
                    offset: if keyed(version) {
                        o ^ key
                    } else {
                        o
                    },
                    length: if keyed(version) {
                        l ^ key
                    } else {
                        l
                    },
                    prefix: if items.len() >= 3 {
                        prefix_of(items[2])
                    } else {
                        seq![]
                    },
                },
            ),
            _ => None,
        }
    }
}

/// A segment from a tuple or a list.
pub open spec fn segment_of(v: PickleValue, key: u64, version: RpaVersion) -> Option<SegmentView> {
    match v {
        PickleValue::Tuple(items) => segment_of_items(items@, key, version),
        PickleValue::List(items) => segment_of_items(items@, key, version),
        _ => None,
    }
}

/// The segments of the values in a list that read as segments, in order.
pub open spec fn segments_of_list(vs: Seq<PickleValue>, key: u64, version: RpaVersion) -> Seq<SegmentView>
    decreases vs.len(),
{
    if vs.len() == 0 {
        seq![]
    } else {
        let rest = segments_of_list(vs.drop_last(), key, version);
        match segment_of(vs.last(), key, version) {
            Some(s) => rest.push(s),
            None => rest,
        }
    }
}

/// The segments of a file's value: a list of segments, or one segment
/// written directly as a tuple.
pub open spec fn entry_segments(v: PickleValue, key: u64, version: RpaVersion) -> Seq<SegmentView> {
    match v {
        PickleValue::List(items) => segments_of_list(items@, key, version),
        PickleValue::Tuple(items) => match segment_of_items(items@, key, version) {
            Some(s) => seq![s],
            None => seq![],
        },
        _ => seq![],
    }
}

/// The file name a key gives: a string, or bytes decoded leniently.
pub open spec fn key_name(k: PickleKey) -> Option<Seq<char>> {
    match k {
        PickleKey::Str(s) => Some(s@),
        PickleKey::Bytes(b) => Some(utf8_lossy(b@)),
        PickleKey::Other => None,
    }
}

/// The last position in `idx` of an entry named `name`.
pub open spec fn name_index(idx: Seq<EntryView>, name: Seq<char>) -> Option<int>
    decreases idx.len(),
{
    if idx.len() == 0 {
        None
    } else if idx.last().name == name {
        Some(idx.len() - 1)
    } else {
        name_index(idx.drop_last(), name)
    }
}

/// `idx` with `e` in place of the entry of the same name, or added last.
pub open spec fn upsert(idx: Seq<EntryView>, e: EntryView) -> Seq<EntryView> {
    match name_index(idx, e.name) {
        Some(i) => idx.update(i, e),
        None => idx.push(e),
    }
}

/// The index built from dictionary entries in order: each key that names a
/// file and whose value yields segments gives an entry under its name with
/// backslashes made slashes; a later entry of the same name replaces an
/// earlier one.
pub open spec fn index_of(entries: Seq<(PickleKey, PickleValue)>, key: u64, version: RpaVersion) -> Seq<EntryView>
    decreases entries.len(),
{
    if entries.len() == 0 {
        seq![]
    } else {
        let idx = index_of(entries.drop_last(), key, version);
        let (k, v) = entries.last();
        match key_name(k) {
            None => idx,
            Some(n) => {
                let segs = entry_segments(v, key, version);
                if segs.len() == 0 {
                    idx
                } else {
                    upsert(idx, EntryView { name: slashes(n), segments: segs })
                }
            },
        }
    }
}

/// Whether no two entries share a name.
pub open spec fn unique_names(idx: Seq<EntryView>) -> bool {
    forall|i: int, j: int| 0 <= i < idx.len() && 0 <= j < idx.len() && i != j ==> idx[i].name != idx[j].name
}


/// The segments of a list of files, as values.
pub open spec fn segments_view(v: Seq<Segment>) -> Seq<SegmentView> {
    v.map_values(|s: Segment| s@)
}

/// The entries of an index, as values.
pub open spec fn entries_view(v: Seq<FileEntry>) -> Seq<EntryView> {
    v.map_values(|e: FileEntry| e@)
}

/// Abstract contents of an [`RpaArchive`].
pub struct ArchiveView {
    pub version: RpaVersion,
    pub key: u64,
    pub entries: Seq<EntryView>,
}

/// The index of an RPA archive, as read from its header and its pickled,
/// compressed dictionary. The archive's data stays where it is; each
/// entry says which stretches of the archive make up a file.
pub struct RpaArchive {
    version: RpaVersion,
    key: u64,
    index: Vec<FileEntry>,
}

impl View for RpaArchive {
    type V = ArchiveView;

    closed spec fn view(&self) -> ArchiveView {
        ArchiveView { version: self.version, key: self.key, entries: entries_view(self.index@) }
    }
}

/// The unsigned reading of a pickled integer.
fn item_value(v: &PickleValue) -> (r: Option<u64>)
    ensures
        r == item_u64(*v),
{
    match v {
        PickleValue::I64(x) => Some(*x as u64),
        _ => None,
    }
}

impl RpaArchive {
    /// A segment from the items of a tuple or list.
    fn parse_segment_items(items: &Vec<PickleValue>, key: u64, version: RpaVersion) -> (r: Option<Segment>)
        ensures
            match segment_of_items(items@, key, version) {
                Some(s) => r matches Some(seg) && seg@ == s,
                None => r is None,
            },
    {
        if items.len() < 2 {
            return None;
        }
        let raw_offset = match item_value(&items[0]) {
            Some(v) => v,
            None => {
                return None;
            },
        };
        let raw_len = match item_value(&items[1]) {
            Some(v) => v,
            None => {
                return None;
            },
        };
        let (offset, length) = if version == RpaVersion::Rpa3 || version == RpaVersion::Rpa2 {
            (raw_offset ^ key, raw_len ^ key)
        } else {
            (raw_offset, raw_len)
        };
        let prefix = if items.len() >= 3 {
            match &items[2] {
                PickleValue::Bytes(b) => vstd::slice::slice_to_vec(b.as_slice()),
                PickleValue::Str(s) => vstd::slice::slice_to_vec(s.as_str().as_bytes()),
                _ => Vec::new(),
            }
        } else {
            Vec::new()
        };
        Some(Segment { offset, length, prefix })
    }

    /// A segment from a tuple or a list.
    fn parse_segment(val: &PickleValue, key: u64, version: RpaVersion) -> (r: Option<Segment>)
        ensures
            match segment_of(*val, key, version) {
                Some(s) => r matches Some(seg) && seg@ == s,
                None => r is None,
            },
    {
        match val {
            PickleValue::Tuple(items) => Self::parse_segment_items(items, key, version),
            PickleValue::List(items) => Self::parse_segment_items(items, key, version),
            _ => None,
        }
    }

    /// The segments of a file's value.
    fn parse_segments(val: &PickleValue, key: u64, version: RpaVersion) -> (r: Vec<Segment>)
        ensures
            segments_view(r@) == entry_segments(*val, key, version),
    {
        let mut segments: Vec<Segment> = Vec::new();
        match val {
            PickleValue::List(list) => {
                let mut k: usize = 0;
                while k < list.len()
                    invariant
                        k <= list@.len(),
                        segments_view(segments@) == segments_of_list(list@.subrange(0, k as int), key, version),
                    decreases list@.len() - k,
                {
                    let ghost before = segments_view(segments@);
                    assert(list@.subrange(0, k + 1).drop_last() =~= list@.subrange(0, k as int));
                    match Self::parse_segment(&list[k], key, version) {
                        Some(seg) => {
                            segments.push(seg);
                            assert(segments_view(segments@) =~= before.push(seg@));
                        },
                        None => {},
                    }
                    k += 1;
                }
                assert(list@.subrange(0, list@.len() as int) =~= list@);
            },
            PickleValue::Tuple(tuple) => {
                match Self::parse_segment_items(tuple, key, version) {
                    Some(seg) => {
                        segments.push(seg);
                        assert(segments_view(segments@) =~= seq![seg@]);
                    },
                    None => {},
                }
            },
            _ => {},
        }
        assert(segments_view(segments@) =~= entry_segments(*val, key, version));
        segments
    }

    /// Builds the index from the unpickled dictionary. A root that is not
    /// a dictionary is corrupted data.
    pub fn from_index(version: RpaVersion, key: u64, root: &PickleValue) -> (r: Result<Self, RpaError>)
        ensures
            match *root {
                PickleValue::Dict(entries) => r matches Ok(a) && a@ == (ArchiveView {
                    version,
                    key,
                    entries: index_of(entries@, key, version),
                }) && unique_names(a@.entries),
                _ => r matches Err(RpaError::CorruptedData(m)) && m@ == "Pickle root is not a dictionary"@,
            },
    {
        let dict = match root {
            PickleValue::Dict(d) => d,
            _ => {
                return Err(RpaError::CorruptedData("Pickle root is not a dictionary".to_owned()));
            },
        };
        let mut index: Vec<FileEntry> = Vec::new();
        let mut k: usize = 0;
        while k < dict.len()
            invariant
                k <= dict@.len(),
                entries_view(index@) == index_of(dict@.subrange(0, k as int), key, version),
                unique_names(entries_view(index@)),
            decreases dict@.len() - k,
        {
            let ghost before = entries_view(index@);
            assert(dict@.subrange(0, k + 1).drop_last() =~= dict@.subrange(0, k as int));
            assert(dict@.subrange(0, k + 1).last() == dict@[k as int]);
            let (name_key, value) = &dict[k];
            let filename = match name_key {
                PickleKey::Str(s) => Some(s.as_str()),
                PickleKey::Bytes(b) => None,
                PickleKey::Other => None,
            };
            let lossy = match name_key {
                PickleKey::Bytes(b) => Some(lossy_string(b.as_slice())),
                _ => None,
            };
            let name: Option<&str> = match filename {
                Some(s) => Some(s),
                None => match &lossy {
                    Some(l) => Some(l.as_str()),
                    None => None,
                },
            };
            match name {
                None => {},
                Some(n) => {
                    let segments = Self::parse_segments(value, key, version);
                    if segments.len() > 0 {
                        let normalized = replace_backslashes(n);
                        let entry = FileEntry { name: normalized, segments };
                        Self::upsert_entry(&mut index, entry);
                    }
                },
            }
            k += 1;
        }
        assert(dict@.subrange(0, dict@.len() as int) =~= dict@);
        Ok(RpaArchive { version, key, index })
    }

    /// Puts `entry` in place of the entry of the same name, or last.
    fn upsert_entry(index: &mut Vec<FileEntry>, entry: FileEntry)
        requires
            unique_names(entries_view(old(index)@)),
        ensures
            entries_view(final(index)@) == upsert(entries_view(old(index)@), entry@),
            unique_names(entries_view(final(index)@)),
    {
        let ghost idx = entries_view(index@);
        let mut k = index.len();
        assert(idx.subrange(0, k as int) =~= idx);
        while k > 0
            invariant
                k <= index@.len(),
                idx == entries_view(index@),
                idx == entries_view(old(index)@),
                unique_names(idx),
                name_index(idx, entry@.name) == name_index(idx.subrange(0, k as int), entry@.name),
            decreases k,
        {
            assert(idx.subrange(0, k as int).drop_last() =~= idx.subrange(0, k - 1));
            if index[k - 1].name == entry.name {
                assert(name_index(idx, entry@.name) == Some((k - 1) as int));
                index.set(k - 1, entry);
                assert(entries_view(index@) =~= idx.update(k - 1, entry@));
                assert(forall|i: int| 0 <= i < idx.len() ==> #[trigger] entries_view(index@)[i].name == idx[i].name);
                return;
            }
            k -= 1;
        }
        assert(forall|i: int| 0 <= i < idx.len() ==> idx[i].name != entry@.name) by {
            lemma_name_index_none(idx, entry@.name);
        }
        index.push(entry);
        assert(entries_view(index@) =~= idx.push(entry@));
    }
}

/// The index bytes an archive's compressed index gives: inflated, or for
/// RPA-1 taken as they are when they do not inflate.
pub open spec fn index_bytes(version: RpaVersion, compressed: Seq<u8>) -> Option<Seq<u8>> {
    match zlib_inflate(compressed) {
        Some(d) => Some(d),
        None => if version == RpaVersion::Rpa1 {
            Some(compressed)
        } else {
            None
        },
    }
}

impl RpaArchive {
    /// The index bytes inflated. An RPA-1 index that does not inflate is
    /// taken as it is (some are stored uncompressed); for the other
    /// versions that is a decompression error.
    pub fn decompress_index(version: RpaVersion, compressed: Vec<u8>) -> (r: Result<Vec<u8>, RpaError>)
        ensures
            match zlib_inflate(compressed@) {
                Some(d) => r matches Ok(v) && v@ == d,
                None => if version == RpaVersion::Rpa1 {
                    r matches Ok(v) && v@ == compressed@
                } else {
                    r matches Err(RpaError::Decompress(_))
                },
            },
    {
        match inflate(compressed.as_slice()) {
            Ok(d) => Ok(d),
            Err(e) => {
                if version == RpaVersion::Rpa1 {
                    Ok(compressed)
                } else {
                    Err(RpaError::Decompress(e))
                }
            },
        }
    }

    /// Reads an archive's index from the bytes that follow its index offset:
    /// inflates them (an RPA-1 index that does not inflate is taken as it
    /// is), unpickles the result, and builds the index from the dictionary.
    pub fn from_compressed_index(version: RpaVersion, key: u64, compressed: Vec<u8>) -> (r: Result<Self, RpaError>)
        ensures
            match index_bytes(version, compressed@) {
                None => r matches Err(RpaError::Decompress(_)),
                Some(d) => match unpickle(d) {
                    None => r matches Err(RpaError::Pickle(_)),
                    Some(PickleValue::Dict(entries)) => r matches Ok(a) && a@ == (ArchiveView {
                        version,
                        key,
                        entries: index_of(entries@, key, version),
                    }) && unique_names(a@.entries),
                    Some(_) => r matches Err(RpaError::CorruptedData(m)) && m@
                        == "Pickle root is not a dictionary"@,
                },
            },
    {
        let d = match Self::decompress_index(version, compressed) {
            Ok(d) => d,
            Err(e) => {
                return Err(e);
            },
        };
        let root = match parse_pickle(d.as_slice()) {
            Ok(v) => v,
            Err(m) => {
                return Err(RpaError::Pickle(m));
            },
        };
        Self::from_index(version, key, &root)
    }

    /// The archive's layout version.
    pub fn version(&self) -> (r: RpaVersion)
        ensures
            r == self@.version,
    {
        self.version
    }

    /// The position of the entry named `name`, searching from the end.
    fn position(&self, name: &String) -> (r: Option<usize>)
        ensures
            match name_index(self@.entries, name@) {
                Some(i) => r matches Some(k) && k as int == i,
                None => r is None,
            },
            r matches Some(k) ==> k < self.index@.len(),
    {
        let ghost idx = self@.entries;
        let mut k = self.index.len();
        assert(idx.subrange(0, k as int) =~= idx);
        while k > 0
            invariant
                k <= self.index@.len(),
                idx == self@.entries,
                idx == entries_view(self.index@),
                name_index(idx, name@) == name_index(idx.subrange(0, k as int), name@),
            decreases k,
        {
            assert(idx.subrange(0, k as int).drop_last() =~= idx.subrange(0, k - 1));
            if self.index[k - 1].name == *name {
                assert(name_index(idx.subrange(0, k as int), name@) == Some((k - 1) as int));
                return Some(k - 1);
            }
            k -= 1;
        }
        None
    }

    /// Whether the archive holds a file of this name (backslashes read as
    /// slashes).
    pub fn contains(&self, filename: &str) -> (r: bool)
        ensures
            r == name_index(self@.entries, slashes(filename@)) is Some,
    {
        let normalized = replace_backslashes(filename);
        self.position(&normalized).is_some()
    }

    /// The names of the archive's files, in index order.
    pub fn list_files(&self) -> (r: Vec<String>)
        ensures
            r@.len() == self@.entries.len(),
            forall|i: int| 0 <= i < r@.len() ==> #[trigger] r@[i]@ == self@.entries[i].name,
    {
        let mut out: Vec<String> = Vec::new();
        let mut k: usize = 0;
        while k < self.index.len()
            invariant
                k <= self.index@.len(),
                self@.entries == entries_view(self.index@),
                out@.len() == k,
                forall|i: int| 0 <= i < k ==> #[trigger] out@[i]@ == self@.entries[i].name,
            decreases self.index@.len() - k,
        {
            out.push(self.index[k].name.clone());
            k += 1;
        }
        out
    }

    /// The entry of the file of this name (backslashes read as slashes), or
    /// `FileNotFound` with the normalized name.
    pub fn entry(&self, filename: &str) -> (r: Result<&FileEntry, RpaError>)
        ensures
            match name_index(self@.entries, slashes(filename@)) {
                Some(i) => r matches Ok(e) && e@ == self@.entries[i],
                None => r matches Err(RpaError::FileNotFound(m)) && m@ == slashes(filename@),
            },
    {
        let normalized = replace_backslashes(filename);
        proof {
            lemma_name_index_some(self@.entries, normalized@);
        }
        match self.position(&normalized) {
            Some(k) => {
                assert(self@.entries[k as int] == self.index@[k as int]@);
                Ok(&self.index[k])
            },
            None => Err(RpaError::FileNotFound(normalized)),
        }
    }
}

/// A position that `name_index` gives lies in the index and holds the name.
pub proof fn lemma_name_index_some(idx: Seq<EntryView>, name: Seq<char>)
    ensures
        name_index(idx, name) matches Some(i) ==> 0 <= i < idx.len() && idx[i].name == name,
    decreases idx.len(),
{
    if idx.len() > 0 && idx.last().name != name {
        lemma_name_index_some(idx.drop_last(), name);
    }
}

proof fn lemma_name_index_none(idx: Seq<EntryView>, name: Seq<char>)
    requires
        name_index(idx, name) is None,
    ensures
        forall|i: int| 0 <= i < idx.len() ==> idx[i].name != name,
    decreases idx.len(),
{
    if idx.len() > 0 {
        lemma_name_index_none(idx.drop_last(), name);
        assert forall|i: int| 0 <= i < idx.len() implies idx[i].name != name by {
            if i < idx.len() - 1 {
                assert(idx.drop_last()[i] == idx[i]);
            }
        }
    }
}


/// Whether a dictionary entry gives a file: its key gives a name and its
/// value yields segments.
pub open spec fn names_file(e: (PickleKey, PickleValue), key: u64, version: RpaVersion) -> bool {
    key_name(e.0) is Some && entry_segments(e.1, key, version).len() > 0
}

/// The names of an index.
pub open spec fn index_names(idx: Seq<EntryView>) -> Set<Seq<char>> {
    Set::new(|n: Seq<char>| exists|i: int| 0 <= i < idx.len() && idx[i].name == n)
}

/// The names the dictionary entries that give files are listed under:
/// each key's name with backslashes made slashes.
pub open spec fn dict_names(entries: Seq<(PickleKey, PickleValue)>, key: u64, version: RpaVersion) -> Set<Seq<char>> {
    Set::new(
        |n: Seq<char>|
            exists|j: int|
                0 <= j < entries.len() && names_file(entries[j], key, version) && slashes(
                    key_name(entries[j].0)->0,
                ) == n,
    )
}

/// A text with its backslashes made slashes has none left, and making
/// them slashes again changes nothing.
pub proof fn lemma_slashes_clean(s: Seq<char>)
    ensures
        !slashes(s).contains('\\'),
        slashes(slashes(s)) == slashes(s),
{
    assert(slashes(slashes(s)) =~= slashes(s));
}

/// Putting an entry keeps the names unique.
proof fn lemma_upsert_unique(idx: Seq<EntryView>, e: EntryView)
    requires
        unique_names(idx),
    ensures
        unique_names(upsert(idx, e)),
{
    lemma_name_index_some(idx, e.name);
    match name_index(idx, e.name) {
        Some(i) => {
            let u = idx.update(i, e);
            assert forall|a: int, b: int| 0 <= a < u.len() && 0 <= b < u.len() && a != b implies u[a].name
                != u[b].name by {
                assert(u[a].name == idx[a].name);
                assert(u[b].name == idx[b].name);
            }
        },
        None => {
            lemma_name_index_none(idx, e.name);
            let u = idx.push(e);
            assert forall|a: int, b: int| 0 <= a < u.len() && 0 <= b < u.len() && a != b implies u[a].name
                != u[b].name by {
                if a < idx.len() && b < idx.len() {
                    assert(u[a] == idx[a] && u[b] == idx[b]);
                }
            }
        },
    }
}

/// In an index with unique names, `name_index` finds each entry at its
/// own position.
pub proof fn lemma_name_index_unique(idx: Seq<EntryView>, i: int)
    requires
        unique_names(idx),
        0 <= i < idx.len(),
    ensures
        name_index(idx, idx[i].name) == Some(i),
    decreases idx.len(),
{
    if i < idx.len() - 1 {
        let d = idx.drop_last();
        assert(d[i] == idx[i]);
        assert forall|a: int, b: int| 0 <= a < d.len() && 0 <= b < d.len() && a != b implies d[a].name
            != d[b].name by {
            assert(d[a] == idx[a] && d[b] == idx[b]);
        }
        lemma_name_index_unique(d, i);
    }
}

/// The names an archive lists are those of the dictionary's file entries,
/// each with backslashes made slashes: no listed name holds a backslash,
/// each is listed once, and looking a listed name up finds its own entry
/// (so `contains` accepts every name `list_files` gives).
pub proof fn law_listed_names(entries: Seq<(PickleKey, PickleValue)>, key: u64, version: RpaVersion)
    ensures
        index_names(index_of(entries, key, version)) == dict_names(entries, key, version),
        unique_names(index_of(entries, key, version)),
        forall|i: int|
            0 <= i < index_of(entries, key, version).len() ==> !(#[trigger] index_of(
                entries,
                key,
                version,
            )[i]).name.contains('\\') && name_index(
                index_of(entries, key, version),
                slashes(index_of(entries, key, version)[i].name),
            ) == Some(i),
    decreases entries.len(),
{
    let idx = index_of(entries, key, version);
    if entries.len() == 0 {
        assert(index_names(idx) =~= dict_names(entries, key, version));
    } else {
        let d = entries.drop_last();
        law_listed_names(d, key, version);
        let idx0 = index_of(d, key, version);
        let (k, v) = entries.last();
        let last = entries.len() - 1;
        assert(entries[last] == entries.last());
        assert forall|j: int| 0 <= j < d.len() implies #[trigger] d[j] == entries[j] by {}
        if !names_file(entries.last(), key, version) {
            assert(idx == idx0);
            assert forall|n: Seq<char>| dict_names(entries, key, version).contains(n) implies dict_names(
                d,
                key,
                version,
            ).contains(n) by {
                let j = choose|j: int|
                    0 <= j < entries.len() && names_file(entries[j], key, version) && slashes(
                        key_name(entries[j].0)->0,
                    ) == n;
                assert(j < d.len());
                assert(d[j] == entries[j]);
            }
            assert forall|n: Seq<char>| dict_names(d, key, version).contains(n) implies dict_names(
                entries,
                key,
                version,
            ).contains(n) by {
                let j = choose|j: int|
                    0 <= j < d.len() && names_file(d[j], key, version) && slashes(key_name(d[j].0)->0)
                        == n;
                assert(d[j] == entries[j]);
            }
            assert(dict_names(entries, key, version) =~= dict_names(d, key, version));
        } else {
            let name = slashes(key_name(k)->0);
            let e = EntryView { name, segments: entry_segments(v, key, version) };
            assert(idx == upsert(idx0, e));
            lemma_upsert_unique(idx0, e);
            lemma_slashes_clean(key_name(k)->0);
            lemma_name_index_some(idx0, name);
            assert forall|n: Seq<char>| index_names(idx).contains(n) <==> index_names(idx0).contains(n)
                || n == name by {
                match name_index(idx0, name) {
                    Some(p) => {
                        if index_names(idx).contains(n) {
                            let i = choose|i: int| 0 <= i < idx.len() && idx[i].name == n;
                            if i != p {
                                assert(idx[i] == idx0[i]);
                            }
                        }
                        if index_names(idx0).contains(n) {
                            let i = choose|i: int| 0 <= i < idx0.len() && idx0[i].name == n;
                            assert(idx[i].name == idx0[i].name);
                        }
                        if n == name {
                            assert(idx[p].name == name);
                        }
                    },
                    None => {
                        if index_names(idx).contains(n) {
                            let i = choose|i: int| 0 <= i < idx.len() && idx[i].name == n;
                            if i < idx0.len() {
                                assert(idx[i] == idx0[i]);
                            }
                        }
                        if index_names(idx0).contains(n) {
                            let i = choose|i: int| 0 <= i < idx0.len() && idx0[i].name == n;
                            assert(idx[i] == idx0[i]);
                        }
                        if n == name {
                            assert(idx[idx0.len() as int] == e);
                        }
                    },
                }
            }
            assert forall|n: Seq<char>| dict_names(entries, key, version).contains(n) <==> dict_names(
                d,
                key,
                version,
            ).contains(n) || n == name by {
                if dict_names(entries, key, version).contains(n) {
                    let j = choose|j: int|
                        0 <= j < entries.len() && names_file(entries[j], key, version) && slashes(
                            key_name(entries[j].0)->0,
                        ) == n;
                    if j < d.len() {
                        assert(d[j] == entries[j]);
                    }
                }
                if dict_names(d, key, version).contains(n) {
                    let j = choose|j: int|
                        0 <= j < d.len() && names_file(d[j], key, version) && slashes(key_name(d[j].0)->0)
                            == n;
                    assert(d[j] == entries[j]);
                }
                if n == name {
                    assert(names_file(entries[last], key, version));
                }
            }
            assert(index_names(idx) =~= dict_names(entries, key, version));
        }
        assert forall|i: int| 0 <= i < idx.len() implies !(#[trigger] idx[i]).name.contains('\\')
            && name_index(idx, slashes(idx[i].name)) == Some(i) by {
            assert(index_names(idx).contains(idx[i].name));
            let j = choose|j: int|
                0 <= j < entries.len() && names_file(entries[j], key, version) && slashes(
                    key_name(entries[j].0)->0,
                ) == idx[i].name;
            lemma_slashes_clean(key_name(entries[j].0)->0);
            lemma_name_index_unique(idx, i);
        }
    }
}

} // verus!
