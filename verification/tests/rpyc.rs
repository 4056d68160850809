use byteorder::{ByteOrder, LittleEndian};
use flate2::write::ZlibEncoder;
use flate2::Compression;
use mkrp::rpyc::{RenpyVersion, RpycError, RpycFile, RPYC2_MAGIC};
use std::io::Write;

fn compress(data: &[u8]) -> Vec<u8> {
    let mut encoder = ZlibEncoder::new(Vec::new(), Compression::default());
    encoder.write_all(data).unwrap();
    encoder.finish().unwrap()
}

fn rpyc2_with_slot1(compressed: &[u8]) -> Vec<u8> {
    let mut rpyc_bytes = Vec::new();
    rpyc_bytes.extend_from_slice(&RPYC2_MAGIC);
    let slot_table_size = 12 + 12;
    let start_offset = (10 + slot_table_size) as u32;
    let mut slot1_entry = [0u8; 12];
    LittleEndian::write_u32(&mut slot1_entry[0..4], 1);
    LittleEndian::write_u32(&mut slot1_entry[4..8], start_offset);
    LittleEndian::write_u32(&mut slot1_entry[8..12], compressed.len() as u32);
    rpyc_bytes.extend_from_slice(&slot1_entry);
    let slot0_term = [0u8; 12];
    rpyc_bytes.extend_from_slice(&slot0_term);
    rpyc_bytes.extend_from_slice(compressed);
    rpyc_bytes
}

#[test]
fn test_rpyc2_parsing_and_version_detection() {
    // Create mock decompressed payload with Ren'Py 8 signature
    let payload_r8 = b"(dp1\nS'renpy.astsupport'\np2\n";
    let mut encoder = ZlibEncoder::new(Vec::new(), Compression::default());
    encoder.write_all(payload_r8).unwrap();
    let compressed_r8 = encoder.finish().unwrap();

    // Build RPYC2 file structure
    let mut rpyc_bytes = Vec::new();
    rpyc_bytes.extend_from_slice(&RPYC2_MAGIC); // 10 bytes

    // Slot table:
    // Slot 1: offset 34, length of compressed blob
    let slot_table_size = 12 + 12; // Slot 1 entry + Slot 0 terminator = 24 bytes
    let start_offset = (10 + slot_table_size) as u32;

    let mut slot1_entry = [0u8; 12];
    LittleEndian::write_u32(&mut slot1_entry[0..4], 1); // slot id = 1
    LittleEndian::write_u32(&mut slot1_entry[4..8], start_offset);
    LittleEndian::write_u32(&mut slot1_entry[8..12], compressed_r8.len() as u32);
    rpyc_bytes.extend_from_slice(&slot1_entry);

    let mut slot0_term = [0u8; 12];
    LittleEndian::write_u32(&mut slot0_term[0..4], 0); // slot id = 0 (terminator)
    rpyc_bytes.extend_from_slice(&slot0_term);

    // Append compressed data
    rpyc_bytes.extend_from_slice(&compressed_r8);

    // Parse with RpycFile
    let rpyc = RpycFile::from_bytes(&rpyc_bytes).expect("Failed to parse RPYC2 file");
    assert!(rpyc.is_v2());
    assert_eq!(rpyc.version(), RenpyVersion::Renpy8);
    assert_eq!(rpyc.decompressed_payload(), payload_r8);
    assert_eq!(rpyc.slots().len(), 1);
    assert_eq!(rpyc.slots().get(&1).unwrap().length, compressed_r8.len());
}

#[test]
fn test_rpyc2_renpy7_detection() {
    // Create mock decompressed payload with Ren'Py 7 signature
    let payload_r7 = b"(dp1\nS'c__builtin__'\np2\n";
    let mut encoder = ZlibEncoder::new(Vec::new(), Compression::default());
    encoder.write_all(payload_r7).unwrap();
    let compressed_r7 = encoder.finish().unwrap();

    let mut rpyc_bytes = Vec::new();
    rpyc_bytes.extend_from_slice(&RPYC2_MAGIC);

    let slot_table_size = 12 + 12;
    let start_offset = (10 + slot_table_size) as u32;

    let mut slot1_entry = [0u8; 12];
    LittleEndian::write_u32(&mut slot1_entry[0..4], 1);
    LittleEndian::write_u32(&mut slot1_entry[4..8], start_offset);
    LittleEndian::write_u32(&mut slot1_entry[8..12], compressed_r7.len() as u32);
    rpyc_bytes.extend_from_slice(&slot1_entry);

    let mut slot0_term = [0u8; 12];
    LittleEndian::write_u32(&mut slot0_term[0..4], 0);
    rpyc_bytes.extend_from_slice(&slot0_term);

    rpyc_bytes.extend_from_slice(&compressed_r7);

    let rpyc = RpycFile::from_bytes(&rpyc_bytes).expect("Failed to parse RPYC2 file");
    assert_eq!(rpyc.version(), RenpyVersion::Renpy7);
    assert_eq!(rpyc.decompressed_payload(), payload_r7);
}

#[test]
fn rpyc1_whole_file_is_the_blob() {
    let payload = b"cbuiltins\nstuff";
    let compressed = compress(payload);
    let rpyc = RpycFile::from_bytes(&compressed).unwrap();
    assert!(!rpyc.is_v2());
    assert_eq!(rpyc.slots().len(), 0);
    assert_eq!(rpyc.version(), RenpyVersion::Renpy8);
    assert_eq!(rpyc.decompressed_payload(), payload);
}

#[test]
fn rpyc_without_signature_defaults_to_renpy8() {
    let rpyc = RpycFile::from_bytes(&rpyc2_with_slot1(&compress(b"nothing here"))).unwrap();
    assert_eq!(rpyc.version(), RenpyVersion::Renpy8);
}

#[test]
fn rpyc_astsupport_outranks_py2_builtins() {
    let rpyc =
        RpycFile::from_bytes(&rpyc2_with_slot1(&compress(b"c__builtin__ renpy.astsupport"))).unwrap();
    assert_eq!(rpyc.version(), RenpyVersion::Renpy8);
}

#[test]
fn rpyc_too_short_is_invalid_magic() {
    match RpycFile::from_bytes(b"RENPY") {
        Err(RpycError::InvalidMagic(m)) => assert_eq!(m, "File is too short"),
        other => panic!("unexpected: {:?}", other.map(|f| f.is_v2())),
    }
}

#[test]
fn rpyc_truncated_slot_table() {
    let mut bytes = RPYC2_MAGIC.to_vec();
    bytes.extend_from_slice(&[1, 0, 0, 0, 0]);
    match RpycFile::from_bytes(&bytes) {
        Err(RpycError::CorruptedSlotTable(m)) => assert_eq!(m, "Unexpected end of slot table"),
        other => panic!("unexpected: {:?}", other.map(|f| f.is_v2())),
    }
}

#[test]
fn rpyc_slot_out_of_bounds_message() {
    let mut bytes = RPYC2_MAGIC.to_vec();
    let mut entry = [0u8; 12];
    LittleEndian::write_u32(&mut entry[0..4], 2);
    LittleEndian::write_u32(&mut entry[4..8], 30);
    LittleEndian::write_u32(&mut entry[8..12], 100);
    bytes.extend_from_slice(&entry);
    bytes.extend_from_slice(&[0u8; 12]);
    let size = bytes.len();
    match RpycFile::from_bytes(&bytes) {
        Err(RpycError::CorruptedSlotTable(m)) => {
            assert_eq!(m, format!("Slot 2 data bounds [30..130] exceed file size {}", size))
        }
        other => panic!("unexpected: {:?}", other.map(|f| f.is_v2())),
    }
}

#[test]
fn rpyc_missing_slot_one() {
    let mut bytes = RPYC2_MAGIC.to_vec();
    let mut entry = [0u8; 12];
    LittleEndian::write_u32(&mut entry[0..4], 2);
    LittleEndian::write_u32(&mut entry[4..8], 0);
    LittleEndian::write_u32(&mut entry[8..12], 4);
    bytes.extend_from_slice(&entry);
    bytes.extend_from_slice(&[0u8; 12]);
    match RpycFile::from_bytes(&bytes) {
        Err(RpycError::SlotNotFound(1)) => {}
        other => panic!("unexpected: {:?}", other.map(|f| f.is_v2())),
    }
}

#[test]
fn rpyc_bad_zlib_is_decompress_error() {
    let bytes = rpyc2_with_slot1(b"not zlib data at all");
    match RpycFile::from_bytes(&bytes) {
        Err(RpycError::Decompress(_)) => {}
        other => panic!("unexpected: {:?}", other.map(|f| f.is_v2())),
    }
}

#[test]
fn rpyc_later_slot_entry_replaces_earlier() {
    let blob = compress(b"cbuiltins");
    let mut bytes = RPYC2_MAGIC.to_vec();
    let start = (10 + 36) as u32;
    for (id, off, len) in [(1u32, 0u32, 4u32), (1, start, blob.len() as u32), (0, 0, 0)] {
        let mut entry = [0u8; 12];
        LittleEndian::write_u32(&mut entry[0..4], id);
        LittleEndian::write_u32(&mut entry[4..8], off);
        LittleEndian::write_u32(&mut entry[8..12], len);
        bytes.extend_from_slice(&entry);
    }
    bytes.extend_from_slice(&blob);
    let rpyc = RpycFile::from_bytes(&bytes).unwrap();
    assert_eq!(rpyc.slots().len(), 1);
    assert_eq!(rpyc.slots().get(&1).unwrap().offset, start as usize);
    assert_eq!(rpyc.decompressed_payload(), b"cbuiltins");
}

#[test]
fn rpyc_info_banner() {
    assert_eq!(mkrp::rpyc::info(), "mkrp-rpyc v0.1.0");
}
