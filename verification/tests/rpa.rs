use flate2::write::ZlibEncoder;
use flate2::Compression;
use mkrp::rpa::archive::{PickleKey, PickleValue, RpaArchive};
use mkrp::rpa::header::{parse_header, RpaVersion};
use mkrp::rpa::vfs::{is_archive_extension, normalize_path, sorted_unique, Source, Vfs};
use mkrp::rpa::RpaError;
use std::io::Write;

fn seg(off: u64, len: u64, key: u64) -> PickleValue {
    PickleValue::Tuple(vec![
        PickleValue::I64((off ^ key) as i64),
        PickleValue::I64((len ^ key) as i64),
        PickleValue::Bytes(vec![]),
    ])
}

fn read_entry(archive: &RpaArchive, data: &[u8], name: &str) -> Vec<u8> {
    let entry = archive.entry(name).unwrap();
    let mut out = Vec::new();
    for s in &entry.segments {
        out.extend_from_slice(&s.prefix);
        out.extend_from_slice(&data[s.offset as usize..(s.offset + s.length) as usize]);
    }
    out
}

#[test]
fn rpa3_archive_in_memory() {
    let key: u64 = 0x42424242;
    let c1 = b"Hello from Ren'Py RPA file 1!";
    let c2 = b"Another asset with some data in it.";
    let header_len = format!("RPA-3.0 {:016x} {:016x}\n", 0u64, key).len() as u64;
    let off1 = header_len;
    let off2 = off1 + c1.len() as u64;
    let index_offset = off2 + c2.len() as u64;
    let header = format!("RPA-3.0 {:016x} {:016x}\n", index_offset, key);
    let mut file = header.clone().into_bytes();
    file.extend_from_slice(c1);
    file.extend_from_slice(c2);

    let (version, offset, k) = parse_header(&header).unwrap();
    assert_eq!(version, RpaVersion::Rpa3);
    assert_eq!(offset, index_offset);
    assert_eq!(k, key);

    let root = PickleValue::Dict(vec![
        (PickleKey::Str("images/bg.png".into()), PickleValue::List(vec![seg(off2, c2.len() as u64, key)])),
        (PickleKey::Str("story/intro.txt".into()), PickleValue::List(vec![seg(off1, c1.len() as u64, key)])),
    ]);
    let archive = RpaArchive::from_index(version, k, &root).unwrap();
    assert_eq!(archive.version(), RpaVersion::Rpa3);
    assert!(archive.contains("story/intro.txt"));
    assert!(archive.contains("images\\bg.png"));
    assert!(!archive.contains("missing.txt"));
    assert_eq!(read_entry(&archive, &file, "story/intro.txt"), c1);
    assert_eq!(read_entry(&archive, &file, "images/bg.png"), c2);
    assert_eq!(archive.list_files(), vec!["images/bg.png".to_string(), "story/intro.txt".to_string()]);

    let mut vfs = Vfs::new();
    vfs.add_archive(archive);
    assert_eq!(vfs.archive_for("story/intro.txt"), Some(0));
    assert_eq!(vfs.archive_for("nope"), None);
}

#[test]
fn header_versions_and_keys() {
    assert_eq!(parse_header("RPA-3.2 00ff 0 1 2 4\n").unwrap(), (RpaVersion::Rpa3, 0xff, 7));
    assert_eq!(parse_header("RPA-2.0 10 zz 3\n").unwrap(), (RpaVersion::Rpa2, 0x10, 3));
    assert_eq!(parse_header("RPA-3.0 +1A 0F\n").unwrap(), (RpaVersion::Rpa3, 0x1a, 0xf));
    assert_eq!(parse_header("\u{80}\u{81} binary").unwrap(), (RpaVersion::Rpa1, 0, 0));
    assert_eq!(parse_header("RPA-3.0\u{3000}x").unwrap(), (RpaVersion::Rpa1, 0, 0));
}

#[test]
fn header_errors() {
    match parse_header("RPA-3.2 00ff 0\n") {
        Err(RpaError::InvalidHeader(m)) => {
            assert_eq!(m, "RPA-3.2 header has insufficient fields: RPA-3.2 00ff 0")
        }
        _ => panic!("expected an invalid header"),
    }
    match parse_header("RPA-3.0 xyz 42\n") {
        Err(RpaError::InvalidHeader(m)) => {
            let e = u64::from_str_radix("xyz", 16).unwrap_err();
            assert_eq!(m, format!("Bad offset: {}", e));
        }
        _ => panic!("expected an invalid header"),
    }
    match parse_header("RPA-2.0 11112222333344445 42\n") {
        Err(RpaError::InvalidHeader(m)) => {
            let e = u64::from_str_radix("11112222333344445", 16).unwrap_err();
            assert_eq!(m, format!("Bad offset: {}", e));
        }
        _ => panic!("expected an invalid header"),
    }
}

#[test]
fn index_decompression() {
    let data = b"pickled index bytes".to_vec();
    let mut enc = ZlibEncoder::new(Vec::new(), Compression::default());
    enc.write_all(&data).unwrap();
    let compressed = enc.finish().unwrap();
    assert_eq!(RpaArchive::decompress_index(RpaVersion::Rpa3, compressed).unwrap(), data);
    assert_eq!(RpaArchive::decompress_index(RpaVersion::Rpa1, data.clone()).unwrap(), data);
    assert!(matches!(
        RpaArchive::decompress_index(RpaVersion::Rpa2, data.clone()),
        Err(RpaError::Decompress(_))
    ));
}

#[test]
fn index_entries_and_edge_cases() {
    let root = PickleValue::Dict(vec![
        (PickleKey::Bytes(b"a\\b.txt".to_vec()), PickleValue::Tuple(vec![
            PickleValue::I64(5),
            PickleValue::I64(3),
            PickleValue::Str("pre".into()),
        ])),
        (PickleKey::Other, PickleValue::List(vec![seg(1, 1, 0)])),
        (PickleKey::Str("empty".into()), PickleValue::List(vec![PickleValue::I64(3)])),
        (PickleKey::Str("a/b.txt".into()), PickleValue::List(vec![
            PickleValue::List(vec![PickleValue::I64(9), PickleValue::I64(2)]),
            PickleValue::Other,
            PickleValue::Tuple(vec![PickleValue::I64(20), PickleValue::I64(1), PickleValue::Bytes(vec![7])]),
        ])),
    ]);
    let archive = RpaArchive::from_index(RpaVersion::Rpa1, 0, &root).unwrap();
    assert_eq!(archive.list_files(), vec!["a/b.txt".to_string()]);
    let e = archive.entry("a\\b.txt").unwrap();
    assert_eq!(e.segments.len(), 2);
    assert_eq!((e.segments[0].offset, e.segments[0].length), (9, 2));
    assert_eq!(e.segments[1].prefix, vec![7]);
    match archive.entry("empty") {
        Err(RpaError::FileNotFound(n)) => assert_eq!(n, "empty"),
        _ => panic!("expected not found"),
    }
    assert!(matches!(
        RpaArchive::from_index(RpaVersion::Rpa3, 0, &PickleValue::I64(1)),
        Err(RpaError::CorruptedData(_))
    ));
}

#[test]
fn string_prefix_is_utf8_and_lossy_names() {
    let root = PickleValue::Dict(vec![(
        PickleKey::Bytes(vec![b'x', 0xff]),
        PickleValue::Tuple(vec![PickleValue::I64(1), PickleValue::I64(2), PickleValue::Str("é".into())]),
    )]);
    let archive = RpaArchive::from_index(RpaVersion::Rpa2, 1, &root).unwrap();
    let names = archive.list_files();
    assert_eq!(names, vec!["x\u{fffd}".to_string()]);
    let e = archive.entry(&names[0]).unwrap();
    assert_eq!((e.segments[0].offset, e.segments[0].length), (0, 3));
    assert_eq!(e.segments[0].prefix, "é".as_bytes().to_vec());
}

#[test]
fn listing_is_sorted_and_unique() {
    let v = sorted_unique(vec!["b".into(), "a".into(), "b".into(), "ab".into(), "B".into()]);
    assert_eq!(v, vec!["B".to_string(), "a".to_string(), "ab".to_string(), "b".to_string()]);
    let root = PickleValue::Dict(vec![(PickleKey::Str("z.png".into()), PickleValue::List(vec![seg(0, 1, 0)]))]);
    let mut vfs = Vfs::new();
    vfs.add_directory("game".into());
    vfs.add_archive(RpaArchive::from_index(RpaVersion::Rpa1, 0, &root).unwrap());
    assert_eq!(vfs.search_dirs(), &vec!["game".to_string()]);
    assert_eq!(vfs.archive_count(), 1);
    let files = vfs.listing(vec!["z.png".into(), "m/x.rpy".into()]);
    assert_eq!(files, vec!["m/x.rpy".to_string(), "z.png".to_string()]);
}

#[test]
fn later_archive_wins() {
    let mk = || {
        let root = PickleValue::Dict(vec![(PickleKey::Str("s.txt".into()), PickleValue::List(vec![seg(0, 1, 0)]))]);
        RpaArchive::from_index(RpaVersion::Rpa1, 0, &root).unwrap()
    };
    let mut vfs = Vfs::new();
    vfs.add_archive(mk());
    vfs.add_archive(mk());
    assert_eq!(vfs.archive_for("s.txt"), Some(1));
}

#[test]
fn paths_and_extensions() {
    assert_eq!(normalize_path("a\\b\\c.png"), "a/b/c.png");
    assert!(is_archive_extension("RPA"));
    assert!(is_archive_extension("rPa"));
    assert!(!is_archive_extension("rpy"));
    assert!(!is_archive_extension("rpaa"));
    assert_eq!(mkrp::rpa::info(), "mkrp-rpa v0.1.0");
}

fn one_file_archive(names: &[&str]) -> RpaArchive {
    let root = PickleValue::Dict(
        names
            .iter()
            .map(|n| (PickleKey::Str(n.to_string()), PickleValue::List(vec![seg(42, 1, 0)])))
            .collect(),
    );
    RpaArchive::from_index(RpaVersion::Rpa3, 0, &root).unwrap()
}

#[test]
fn directories_first_then_last_archive() {
    let mut vfs = Vfs::new();
    vfs.add_directory("game".to_string());
    vfs.add_directory("extra".to_string());
    vfs.add_archive(one_file_archive(&["a.txt", "b.txt"]));
    vfs.add_archive(one_file_archive(&["a.txt"]));
    assert_eq!(vfs.source_for("a.txt", &vec![false, false]), Source::Archive(1));
    assert_eq!(vfs.source_for("b.txt", &vec![false, false]), Source::Archive(0));
    assert_eq!(vfs.source_for("a.txt", &vec![false, true]), Source::Directory(1));
    assert_eq!(vfs.source_for("a.txt", &vec![true, true]), Source::Directory(0));
    assert_eq!(vfs.source_for("c.txt", &vec![false, false]), Source::Missing);
    assert_eq!(vfs.source_for("b\\a.txt", &vec![false, false]), Source::Missing);
}

#[test]
fn default_vfs_is_empty() {
    let vfs = Vfs::default();
    assert_eq!(vfs.archive_count(), 0);
    assert!(vfs.search_dirs().is_empty());
    assert_eq!(vfs.source_for("a", &vec![]), Source::Missing);
}

#[test]
fn listed_names_are_normalized_and_found() {
    let root = PickleValue::Dict(vec![
        (PickleKey::Str("images\\bg.png".into()), PickleValue::List(vec![seg(42, 1, 7)])),
        (PickleKey::Bytes(b"a\\b\\c.txt".to_vec()), seg(50, 2, 7)),
        (PickleKey::Str("images/bg.png".into()), PickleValue::List(vec![seg(60, 3, 7)])),
        (PickleKey::Str("empty".into()), PickleValue::List(vec![])),
        (PickleKey::Other, PickleValue::List(vec![seg(1, 1, 7)])),
    ]);
    let archive = RpaArchive::from_index(RpaVersion::Rpa3, 7, &root).unwrap();
    let names = archive.list_files();
    assert_eq!(names, vec!["images/bg.png".to_string(), "a/b/c.txt".to_string()]);
    for n in &names {
        assert!(!n.contains('\\'));
        assert!(archive.contains(n));
    }
    assert_eq!(archive.entry("images/bg.png").unwrap().segments[0].offset, 60);
    assert!(!archive.contains("empty"));
}
