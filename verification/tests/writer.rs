use flate2::write::ZlibEncoder;
use flate2::Compression;
use mkrp::rpa::archive::{PickleKey, PickleValue, RpaArchive};
use mkrp::rpa::header::{hex_error_str, parse_header, HexError, RpaVersion};
use mkrp::rpa::repair::{repair_header, repair_index_bytes, repaired_index};
use mkrp::rpa::RpaError;
use mkrp::rpa::writer::{
    archive_header, converted_name, is_avif_name, is_patch_source, PatchIndex, HEADER_LEN,
};
use std::collections::BTreeMap;
use std::io::Write;

fn from_pickle(v: serde_pickle::Value) -> PickleValue {
    match v {
        serde_pickle::Value::I64(x) => PickleValue::I64(x),
        serde_pickle::Value::Bytes(b) => PickleValue::Bytes(b),
        serde_pickle::Value::String(s) => PickleValue::Str(s),
        serde_pickle::Value::List(l) => PickleValue::List(l.into_iter().map(from_pickle).collect()),
        serde_pickle::Value::Tuple(t) => PickleValue::Tuple(t.into_iter().map(from_pickle).collect()),
        serde_pickle::Value::Dict(d) => PickleValue::Dict(
            d.into_iter()
                .map(|(k, v)| {
                    let key = match k {
                        serde_pickle::HashableValue::String(s) => PickleKey::Str(s),
                        serde_pickle::HashableValue::Bytes(b) => PickleKey::Bytes(b),
                        _ => PickleKey::Other,
                    };
                    (key, from_pickle(v))
                })
                .collect(),
        ),
        _ => PickleValue::Other,
    }
}

#[test]
fn header_text_and_length() {
    let h = archive_header(0x1234, 0x42424242);
    assert_eq!(h, "RPA-3.0 0000000000001234 0000000042424242\n");
    assert_eq!(h.len() as u64, HEADER_LEN);
    assert_eq!(archive_header(u64::MAX, 0), "RPA-3.0 ffffffffffffffff 0000000000000000\n");
    assert_eq!(archive_header(7, 9), format!("RPA-3.0 {:016x} {:016x}\n", 7u64, 9u64));
}

#[test]
fn header_reads_back() {
    for &(o, k) in &[(0u64, 0u64), (42, 0x42424242), (u64::MAX, u64::MAX), (0x0123_4567_89ab_cdef, 1)] {
        assert_eq!(parse_header(&archive_header(o, k)).unwrap(), (RpaVersion::Rpa3, o, k));
    }
}

#[test]
fn placing_files_in_name_order() {
    let key = 0x42424242u64;
    let mut index = PatchIndex::new(key);
    assert_eq!(index.key(), key);
    assert_eq!(index.next_offset(), 42);
    assert_eq!(index.place("story/intro.txt".to_string(), 29), 42);
    assert_eq!(index.place("images/bg.png".to_string(), 35), 71);
    assert_eq!(index.next_offset(), 106);
    let names: Vec<&str> = index.files().iter().map(|f| f.0.as_str()).collect();
    assert_eq!(names, vec!["images/bg.png", "story/intro.txt"]);
    assert_eq!(
        index.index_entries(),
        vec![
            ("images/bg.png".to_string(), 71 ^ key, 35 ^ key),
            ("story/intro.txt".to_string(), 42 ^ key, 29 ^ key),
        ]
    );
    // A second file of the same name takes the place of the first in the index.
    assert_eq!(index.place("images/bg.png".to_string(), 5), 106);
    assert_eq!(index.next_offset(), 111);
    assert_eq!(index.files().len(), 2);
    assert_eq!(index.files()[0], ("images/bg.png".to_string(), (106, 5)));
    assert_eq!(index.files()[1], ("story/intro.txt".to_string(), (42, 29)));
}

#[test]
fn avif_names_and_sources() {
    assert!(is_avif_name("images/cg07/d1_1_1.avif"));
    assert!(is_avif_name("B.AVIF"));
    assert!(!is_avif_name("avif"));
    assert!(!is_avif_name("x.avi"));
    assert!(!is_avif_name("x_avif"));
    assert_eq!(converted_name("cg/d1.AVIF", ".jpg"), "cg/d1.jpg");
    assert_eq!(converted_name("bg/화면.avif", ".png"), "bg/화면.png");
    assert!(is_patch_source("cg07.rpa"));
    assert!(is_patch_source("..rpa"));
    assert!(!is_patch_source(".rpa"));
    assert!(!is_patch_source("x.RPA"));
    assert!(!is_patch_source("patch_virtues_assets.rpa"));
    assert!(!is_patch_source("archive.rpi"));
}

/// An archive written with the header, the places and the index of a
/// `PatchIndex`, then read back as the archive reader reads it.
#[test]
fn patch_archive_reads_back() {
    let key = 0x42424242u64;
    let files: [(&str, &[u8]); 3] = [
        ("story/intro.txt", b"Hello from Ren'Py RPA file 1!"),
        ("images/bg.png", b"Another asset with some data in it."),
        ("a.jpg", b"\xff\xd8\xff"),
    ];
    let mut index = PatchIndex::new(key);
    let mut out = archive_header(0, key).into_bytes();
    for (name, data) in &files {
        let at = index.place(name.to_string(), data.len() as u64);
        assert_eq!(at as usize, out.len());
        out.extend_from_slice(data);
    }
    let index_offset = index.next_offset();
    let mut map: BTreeMap<String, Vec<(u64, u64, Vec<u8>)>> = BTreeMap::new();
    for (name, off, len) in index.index_entries() {
        map.insert(name, vec![(off, len, Vec::new())]);
    }
    let pickled = serde_pickle::to_vec(&map, serde_pickle::SerOptions::new()).unwrap();
    let mut enc = ZlibEncoder::new(Vec::new(), Compression::default());
    enc.write_all(&pickled).unwrap();
    let compressed = enc.finish().unwrap();
    // The library's own encoding of the index is the same bytes.
    assert_eq!(index.encoded_index().unwrap(), compressed);
    out.extend_from_slice(&compressed);
    let header = archive_header(index_offset, key);
    out[..header.len()].copy_from_slice(header.as_bytes());

    let line_end = out.iter().position(|&b| b == b'\n').unwrap() + 1;
    let line = std::str::from_utf8(&out[..line_end]).unwrap();
    let (version, offset, k) = parse_header(line).unwrap();
    assert_eq!((version, offset, k), (RpaVersion::Rpa3, index_offset, key));
    let raw = RpaArchive::decompress_index(version, out[offset as usize..].to_vec()).unwrap();
    let value = serde_pickle::value_from_slice(&raw, serde_pickle::DeOptions::new()).unwrap();
    let archive = RpaArchive::from_index(version, k, &from_pickle(value)).unwrap();
    assert_eq!(archive.list_files(), vec!["a.jpg", "images/bg.png", "story/intro.txt"]);
    for (name, data) in &files {
        let entry = archive.entry(name).unwrap();
        assert_eq!(entry.segments.len(), 1);
        let s = &entry.segments[0];
        assert!(s.prefix.is_empty());
        assert_eq!(&out[s.offset as usize..(s.offset + s.length) as usize], *data);
    }
}

#[test]
fn repairing_an_index() {
    let t = |items: Vec<PickleValue>| PickleValue::Tuple(items);
    let root = PickleValue::Dict(vec![
        (
            PickleKey::Str("b.png".into()),
            PickleValue::List(vec![
                t(vec![PickleValue::I64(5), PickleValue::I64(6), PickleValue::List(vec![])]),
                t(vec![PickleValue::I64(1)]),
                PickleValue::List(vec![PickleValue::I64(9), PickleValue::I64(9)]),
            ]),
        ),
        (
            PickleKey::Bytes(b"a.jpg".to_vec()),
            PickleValue::List(vec![t(vec![PickleValue::Str("x".into()), PickleValue::I64(3)])]),
        ),
        (PickleKey::Other, PickleValue::List(vec![t(vec![PickleValue::I64(1), PickleValue::I64(2)])])),
        (PickleKey::Str("c".into()), t(vec![PickleValue::I64(1), PickleValue::I64(2)])),
        (PickleKey::Str("d".into()), PickleValue::List(vec![])),
        (
            PickleKey::Str("b.png".into()),
            PickleValue::List(vec![t(vec![PickleValue::I64(-1), PickleValue::I64(8)])]),
        ),
    ]);
    assert_eq!(
        repaired_index(&root),
        vec![("a.jpg".to_string(), vec![(0, 3)]), ("b.png".to_string(), vec![(u64::MAX, 8)])]
    );
    assert!(repaired_index(&PickleValue::List(vec![])).is_empty());
    // A name that is not UTF-8 is read leniently.
    let lenient = PickleValue::Dict(vec![(
        PickleKey::Bytes(vec![0x7a, 0xff]),
        PickleValue::List(vec![t(vec![PickleValue::I64(1), PickleValue::I64(2)])]),
    )]);
    assert_eq!(repaired_index(&lenient), vec![("z\u{FFFD}".to_string(), vec![(1, 2)])]);
}

#[test]
fn repair_header_fields() {
    assert_eq!(
        repair_header("RPA-3.0 0000000099169b6c 42424242        "),
        Some((Ok(0x99169b6c), Ok(0x42424242)))
    );
    assert_eq!(repair_header("RPA-2.0 1 2"), None);
    assert_eq!(repair_header("RPA-3.0 1"), None);
    assert_eq!(repair_header("  RPA-3.0x zz 1 9"), Some((Err(HexError::InvalidDigit), Ok(1))));
    assert_eq!(hex_error_str(HexError::InvalidDigit), "invalid digit found in string");
}

/// The archive index written and read through the library alone.
#[test]
fn encoded_index_reads_back() {
    let key = 0x42424242u64;
    let mut index = PatchIndex::new(key);
    index.place("b.png".to_string(), 10);
    index.place("a\u{e9}.jpg".to_string(), 20);
    let encoded = index.encoded_index().unwrap();
    let archive = RpaArchive::from_compressed_index(RpaVersion::Rpa3, key, encoded).unwrap();
    assert_eq!(archive.list_files(), vec!["a\u{e9}.jpg", "b.png"]);
    let e = archive.entry("a\u{e9}.jpg").unwrap();
    assert_eq!((e.segments[0].offset, e.segments[0].length), (52, 20));
    let e = archive.entry("b.png").unwrap();
    assert_eq!((e.segments[0].offset, e.segments[0].length), (42, 10));
}

fn zlib(b: &[u8]) -> Vec<u8> {
    let mut enc = ZlibEncoder::new(Vec::new(), Compression::default());
    enc.write_all(b).unwrap();
    enc.finish().unwrap()
}

#[test]
fn compressed_index_errors() {
    match RpaArchive::from_compressed_index(RpaVersion::Rpa3, 0, b"not zlib".to_vec()) {
        Err(RpaError::Decompress(_)) => {}
        _ => panic!("expected a decompression error"),
    }
    match RpaArchive::from_compressed_index(RpaVersion::Rpa1, 0, b"not a pickle".to_vec()) {
        Err(RpaError::Pickle(_)) => {}
        _ => panic!("expected a pickle error"),
    }
    let list = serde_pickle::to_vec(&vec![1u64, 2], serde_pickle::SerOptions::new()).unwrap();
    match RpaArchive::from_compressed_index(RpaVersion::Rpa3, 0, zlib(&list)) {
        Err(RpaError::CorruptedData(m)) => assert_eq!(m, "Pickle root is not a dictionary"),
        _ => panic!("expected corrupted data"),
    }
    // An uncompressed RPA-1 index is read as it is.
    let mut map: BTreeMap<String, Vec<(u64, u64)>> = BTreeMap::new();
    map.insert("x.txt".to_string(), vec![(5, 6)]);
    let raw = serde_pickle::to_vec(&map, serde_pickle::SerOptions::new()).unwrap();
    let archive = RpaArchive::from_compressed_index(RpaVersion::Rpa1, 99, raw).unwrap();
    let e = archive.entry("x.txt").unwrap();
    assert_eq!((e.segments[0].offset, e.segments[0].length), (5, 6));
}

#[test]
fn repairing_index_bytes() {
    let mut map: BTreeMap<String, Vec<(u64, u64, Vec<u8>)>> = BTreeMap::new();
    map.insert("b.png".to_string(), vec![(1, 2, vec![]), (3, 4, vec![7])]);
    map.insert("a.jpg".to_string(), vec![(5, 6, vec![])]);
    let pickled = serde_pickle::to_vec(&map, serde_pickle::SerOptions::new()).unwrap();
    let (bytes, files) = repair_index_bytes(&pickled).unwrap();
    assert_eq!(files, 2);
    let mut expected: BTreeMap<String, Vec<(u64, u64, serde_bytes::ByteBuf)>> = BTreeMap::new();
    expected.insert(
        "b.png".to_string(),
        vec![(1, 2, serde_bytes::ByteBuf::new()), (3, 4, serde_bytes::ByteBuf::new())],
    );
    expected.insert("a.jpg".to_string(), vec![(5, 6, serde_bytes::ByteBuf::new())]);
    assert_eq!(bytes, zlib(&serde_pickle::to_vec(&expected, serde_pickle::SerOptions::new()).unwrap()));
    match repair_index_bytes(b"garbage") {
        Err(RpaError::Pickle(_)) => {}
        _ => panic!("expected a pickle error"),
    }
}
