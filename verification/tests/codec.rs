use btag::encode::encode_address_entry;
use btag::encode::encode_cluster_header;
use btag::encode::encode_index_table;
use btag::encode::encode_name_entry;
use btag::encode::encode_tag_data;
use btag::encode::encode_tag_index;
use btag::AddressEntry;
use btag::AddressList;
use btag::ClusterMetadata;
use btag::DatabaseReadErrorKind;
use btag::DatabaseReader;
use btag::IndexTable;
use btag::NameIndex;
use btag::TagData;
use btag::TagIndex;
use btag::TagType;

fn put(store: &mut Vec<u8>, addr: usize, bytes: &[u8]) {
    if store.len() < addr + bytes.len() {
        store.resize(addr + bytes.len(), 0);
    }
    store[addr..addr + bytes.len()].copy_from_slice(bytes);
}

#[test]
fn table_constructors_keep_contents() {
    let names = btag::NamesIndexTable::new(vec![NameIndex::new(1, 2, String::from("ab"))]);
    assert_eq!(names.names.len(), 1);
    assert_eq!(names.names[0].name_string, "ab");
    let tags = btag::TagIndexTable::new(vec![TagIndex::new(1, 2, 0, vec![], 50)]);
    assert_eq!(tags.tags.len(), 1);
    assert_eq!(tags.tags[0].offset, 50);
}

#[test]
fn byte_decoders_little_endian() {
    assert_eq!(
        DatabaseReader::read_u64_from_slice(&[0x11, 0x22, 0x33, 0x44, 0x55, 0x66, 0x77, 0x88]),
        0x8877665544332211u64
    );
    assert_eq!(DatabaseReader::read_u32_from_slice(&[0x78, 0x56, 0x34, 0x12]), 0x12345678u32);
    assert_eq!(DatabaseReader::read_u16_from_slice(&[0xCD, 0xAB]), 0xABCDu16);
}

#[test]
fn cluster_header_round_trip() {
    let c = ClusterMetadata::new(9, 1, 64, 0, 4096, 7, u64::MAX);
    let bytes = encode_cluster_header(&c);
    assert_eq!(bytes.len(), 50);
    assert_eq!(&bytes[0..4], b"BTAG");
    let mut store: Vec<u8> = Vec::new();
    put(&mut store, 3, &bytes);
    let reader = DatabaseReader::new(store);
    let decoded = reader.read_cluster(3).unwrap();
    assert_eq!(decoded.version, 9);
    assert_eq!(decoded.cluster_index, 1);
    assert_eq!(decoded.index_table_offset, 64);
    assert_eq!(decoded.text_encoding, 0);
    assert_eq!(decoded.database_size, 4096);
    assert_eq!(decoded.last_name_index, 7);
    assert_eq!(decoded.next_cluster, u64::MAX);
}

#[test]
fn cluster_bad_magic_rejected() {
    let c = ClusterMetadata::new(9, 1, 64, 0, 4096, 7, 8);
    let mut bytes = encode_cluster_header(&c);
    bytes[0] = b'X';
    let reader = DatabaseReader::new(bytes);
    match reader.read_cluster(0) {
        Err(DatabaseReadErrorKind::ClusterValidity) => {}
        _ => panic!("a header without the magic must fail with ClusterValidity"),
    }
}

#[test]
fn cluster_truncated_rejected() {
    let c = ClusterMetadata::new(9, 1, 64, 0, 4096, 7, 8);
    let mut bytes = encode_cluster_header(&c);
    bytes.pop();
    let reader = DatabaseReader::new(bytes);
    match reader.read_cluster(0) {
        Err(DatabaseReadErrorKind::ClusterValidity) => {}
        _ => panic!("a short header must fail with ClusterValidity"),
    }
}

#[test]
fn cluster_validate_kinds() {
    let c = ClusterMetadata::new(2, 0, 50, 1, 100, 0, 0);
    assert!(c.validate(2, 1).is_ok());
    match c.validate(3, 1) {
        Err(DatabaseReadErrorKind::ClusterIncompatibleVersion) => {}
        _ => panic!("wrong version must be ClusterIncompatibleVersion"),
    }
    match c.validate(2, 0) {
        Err(DatabaseReadErrorKind::UnsupportedTextEncoding) => {}
        _ => panic!("wrong encoding must be UnsupportedTextEncoding"),
    }
}

#[test]
fn index_table_round_trip_and_anchor() {
    let t = IndexTable::new(96, 20, 40, 36, 60, 999);
    let bytes = encode_index_table(&t);
    assert_eq!(bytes.len(), 40);
    let mut store: Vec<u8> = Vec::new();
    put(&mut store, 16, &bytes);
    let mut reader = DatabaseReader::new(store);
    let decoded = reader.read_index_table(16).unwrap();
    assert_eq!(decoded.index_table_size, 96);
    assert_eq!(decoded.index_table_names_size, 20);
    assert_eq!(decoded.index_table_names_offset, 40);
    assert_eq!(decoded.index_table_tags_size, 36);
    assert_eq!(decoded.index_table_tags_offset, 60);
    assert_eq!(decoded.index_table_next_page_offset, 999);
    assert_eq!(reader.current_index_table_offset, 16);
}

#[test]
fn index_table_out_of_bounds() {
    let reader = DatabaseReader::new(vec![0u8; 30]);
    let mut r = reader;
    match r.read_index_table(0) {
        Err(DatabaseReadErrorKind::IndexTableValidity) => {}
        _ => panic!("a short index table must fail with IndexTableValidity"),
    }
    assert_eq!(r.current_index_table_offset, 0);
}

fn names_fixture() -> (Vec<u8>, IndexTable, u32) {
    // An index table at offset 0; its names block right after the header.
    let e1 = encode_name_entry(&NameIndex::new(10, 5, String::from("alpha")));
    let e2 = encode_name_entry(&NameIndex::new(11, 0, String::new()));
    let names_size = (e1.len() + e2.len()) as u32;
    let t = IndexTable::new(0, names_size, 40, 0, 0, 0);
    let mut store = encode_index_table(&t);
    store.extend_from_slice(&e1);
    store.extend_from_slice(&e2);
    (store, t, names_size)
}

#[test]
fn names_table_round_trip() {
    let (store, _, _) = names_fixture();
    let mut reader = DatabaseReader::new(store);
    let t = reader.read_index_table(0).unwrap();
    let names = reader.read_names_index(t).unwrap();
    assert_eq!(names.names.len(), 2);
    assert_eq!(names.names[0].name, 10);
    assert_eq!(names.names[0].name_string_size, 5);
    assert_eq!(names.names[0].name_string, "alpha");
    assert_eq!(names.names[1].name, 11);
    assert_eq!(names.names[1].name_string_size, 0);
    assert_eq!(names.names[1].name_string, "");
}

#[test]
fn names_table_truncated_is_io_error() {
    let (mut store, _, _) = names_fixture();
    store.pop();
    let mut reader = DatabaseReader::new(store);
    let t = reader.read_index_table(0).unwrap();
    match reader.read_names_index(t) {
        Err(DatabaseReadErrorKind::IOError) => {}
        _ => panic!("a truncated names block must fail with IOError"),
    }
}

#[test]
fn names_table_overrun_is_validity_error() {
    let (store, _table, names_size) = names_fixture();
    // Declare one byte less than the entries occupy: the final entry
    // overruns the declared size.
    let shrunk = IndexTable::new(0, names_size - 1, 40, 0, 0, 0);
    let mut reader = DatabaseReader::new(store);
    let _ = reader.read_index_table(0).unwrap();
    match reader.read_names_index(shrunk) {
        Err(DatabaseReadErrorKind::IndexTableValidity) => {}
        _ => panic!("an overrunning names block must fail with IndexTableValidity"),
    }
}

#[test]
fn names_table_invalid_utf8() {
    // name id 10, declared length 2, bytes that are not UTF-8.
    let mut block: Vec<u8> = Vec::new();
    block.extend_from_slice(&10u64.to_le_bytes());
    block.extend_from_slice(&2u16.to_le_bytes());
    block.extend_from_slice(&[0xFF, 0xFE]);
    let t = IndexTable::new(0, block.len() as u32, 40, 0, 0, 0);
    let mut store = encode_index_table(&t);
    store.extend_from_slice(&block);
    let mut reader = DatabaseReader::new(store);
    let t = reader.read_index_table(0).unwrap();
    match reader.read_names_index(t) {
        Err(DatabaseReadErrorKind::StringValidity) => {}
        _ => panic!("non-UTF-8 name text must fail with StringValidity"),
    }
}

#[test]
fn tags_table_round_trip() {
    let e1 = encode_tag_index(&TagIndex::new(1, 10, 2, vec![5, 6], 400));
    let e2 = encode_tag_index(&TagIndex::new(2, 11, 0, vec![], 500));
    let tags_size = (e1.len() + e2.len()) as u32;
    let t = IndexTable::new(0, 0, 0, tags_size, 40, 0);
    let mut store = encode_index_table(&t);
    store.extend_from_slice(&e1);
    store.extend_from_slice(&e2);
    let mut reader = DatabaseReader::new(store);
    let t = reader.read_index_table(0).unwrap();
    let tags = reader.read_tags_index(t).unwrap();
    assert_eq!(tags.tags.len(), 2);
    assert_eq!(tags.tags[0].tag_id, 1);
    assert_eq!(tags.tags[0].name, 10);
    assert_eq!(tags.tags[0].depth, 2);
    assert_eq!(tags.tags[0].full_path, vec![5, 6]);
    assert_eq!(tags.tags[0].offset, 400);
    assert_eq!(tags.tags[1].tag_id, 2);
    assert_eq!(tags.tags[1].depth, 0);
    assert_eq!(tags.tags[1].full_path, Vec::<u64>::new());
    assert_eq!(tags.tags[1].offset, 500);
}

#[test]
fn tags_table_truncated_is_io_error() {
    let e1 = encode_tag_index(&TagIndex::new(1, 10, 2, vec![5, 6], 400));
    let tags_size = e1.len() as u32;
    let t = IndexTable::new(0, 0, 0, tags_size, 40, 0);
    let mut store = encode_index_table(&t);
    store.extend_from_slice(&e1);
    store.pop();
    let mut reader = DatabaseReader::new(store);
    let t = reader.read_index_table(0).unwrap();
    match reader.read_tags_index(t) {
        Err(DatabaseReadErrorKind::IOError) => {}
        _ => panic!("a truncated tags block must fail with IOError"),
    }
}

fn record(
    tag_id: u64,
    tag_name: u64,
    parents: Vec<AddressEntry>,
    ty: u8,
    size: u64,
    payload: TagType,
) -> TagData<TagType> {
    let depth = parents.len() as u64;
    TagData::new(
        tag_id,
        0,
        tag_name,
        depth,
        16 * depth,
        AddressList { address_count: depth, array: parents },
        ty,
        size,
        payload,
    )
}

#[test]
fn tag_data_round_trip_integer() {
    let d = record(1, 10, vec![], 0, 8, TagType::Integer(0xDEADBEEF));
    let store = encode_tag_data(&d);
    let reader = DatabaseReader::new(store);
    let decoded = reader.read_tag_data(0).unwrap();
    assert_eq!(decoded.tag_id, 1);
    assert_eq!(decoded.tag_name, 10);
    assert_eq!(decoded.tag_depth, 0);
    assert_eq!(decoded.tag_parents_size, 0);
    assert_eq!(decoded.tag_data_type, 0);
    assert_eq!(decoded.tag_data_size, 8);
    // the parent placeholder: counted at the depth, not yet populated
    assert_eq!(decoded.tag_parents.address_count, 0);
    assert!(decoded.tag_parents.array.is_empty());
    match decoded.tag_data {
        TagType::Integer(v) => assert_eq!(v, 0xDEADBEEF),
        _ => panic!("expected an integer payload"),
    }
}

#[test]
fn tag_data_round_trip_float_bits() {
    let bits = 1.5f32.to_bits();
    let d = record(2, 10, vec![], 1, 4, TagType::Float(bits));
    let store = encode_tag_data(&d);
    let reader = DatabaseReader::new(store);
    let decoded = reader.read_tag_data(0).unwrap();
    match decoded.tag_data {
        TagType::Float(v) => assert_eq!(f32::from_bits(v), 1.5f32),
        _ => panic!("expected a float payload"),
    }
}

#[test]
fn tag_data_round_trip_double_bits() {
    let bits = 2.75f64.to_bits();
    let d = record(3, 10, vec![], 2, 8, TagType::Double(bits));
    let store = encode_tag_data(&d);
    let reader = DatabaseReader::new(store);
    let decoded = reader.read_tag_data(0).unwrap();
    match decoded.tag_data {
        TagType::Double(v) => assert_eq!(f64::from_bits(v), 2.75f64),
        _ => panic!("expected a double payload"),
    }
}

#[test]
fn tag_data_round_trip_address_entry() {
    let e = AddressEntry { name: 3, address: 77 };
    let d = record(4, 10, vec![], 3, 16, TagType::AddressEntry(e));
    let store = encode_tag_data(&d);
    let reader = DatabaseReader::new(store);
    let decoded = reader.read_tag_data(0).unwrap();
    match decoded.tag_data {
        TagType::AddressEntry(got) => assert_eq!(got, e),
        _ => panic!("expected an address-entry payload"),
    }
}

#[test]
fn tag_data_round_trip_address_list() {
    let l = AddressList {
        address_count: 2,
        array: vec![
            AddressEntry { name: 1, address: 100 },
            AddressEntry { name: 2, address: 200 },
        ],
    };
    let d = record(5, 10, vec![], 4, 8 + 32, TagType::AddressList(l.clone()));
    let store = encode_tag_data(&d);
    let reader = DatabaseReader::new(store);
    let decoded = reader.read_tag_data(0).unwrap();
    match decoded.tag_data {
        TagType::AddressList(got) => {
            assert_eq!(got.address_count, 2);
            assert_eq!(got.array, l.array);
        }
        _ => panic!("expected an address-list payload"),
    }
}

#[test]
fn tag_data_round_trip_text() {
    let text = String::from("h\u{00e9}llo");
    let size = text.as_bytes().len() as u64;
    let d = record(6, 10, vec![], 5, size, TagType::Text(text.clone()));
    let store = encode_tag_data(&d);
    let reader = DatabaseReader::new(store);
    let decoded = reader.read_tag_data(0).unwrap();
    match decoded.tag_data {
        TagType::Text(got) => assert_eq!(got, text),
        _ => panic!("expected a text payload"),
    }
}

#[test]
fn tag_data_round_trip_empty_text() {
    let d = record(11, 10, vec![], 5, 0, TagType::Text(String::new()));
    let store = encode_tag_data(&d);
    let reader = DatabaseReader::new(store);
    let decoded = reader.read_tag_data(0).unwrap();
    assert_eq!(decoded.tag_data_size, 0);
    match decoded.tag_data {
        TagType::Text(got) => assert_eq!(got, ""),
        _ => panic!("expected a text payload"),
    }
}

#[test]
fn tag_data_round_trip_with_parents_skipped() {
    // A record with two parents: the base decode skips them and leaves the
    // placeholder; a parents pass then fills them in.
    let parents = vec![
        AddressEntry { name: 20, address: 100 },
        AddressEntry { name: 30, address: 200 },
    ];
    let d = record(7, 10, parents.clone(), 0, 8, TagType::Integer(5));
    let store = encode_tag_data(&d);
    let reader = DatabaseReader::new(store);
    let mut decoded = reader.read_tag_data(0).unwrap();
    assert_eq!(decoded.tag_depth, 2);
    assert_eq!(decoded.tag_parents_size, 32);
    assert_eq!(decoded.tag_parents.address_count, 2);
    assert!(decoded.tag_parents.array.is_empty());
    let ti = TagIndex::new(7, 10, 2, vec![30, 20], 0);
    reader.read_parents(&ti, &mut decoded).unwrap();
    assert_eq!(decoded.tag_parents.array, parents);
    assert_eq!(decoded.tag_parents.address_count, decoded.tag_depth);
}

#[test]
fn tag_data_unsupported_discriminant() {
    let d = record(8, 10, vec![], 0, 8, TagType::Integer(1));
    let mut store = encode_tag_data(&d);
    store[40] = 9;  // no parents: the discriminant byte sits right after the header
    let reader = DatabaseReader::new(store);
    match reader.read_tag_data(0) {
        Err(DatabaseReadErrorKind::IndexTableValidity) => {}
        _ => panic!("an unknown payload discriminant must fail"),
    }
}

#[test]
fn tag_data_short_payload_is_io_error() {
    let d = record(9, 10, vec![], 0, 8, TagType::Integer(1));
    let mut store = encode_tag_data(&d);
    // declare a 4-byte payload for an integer: too short for its shape
    let fixed = 4u64.to_le_bytes();
    store[41..49].copy_from_slice(&fixed);
    store.truncate(49 + 4);
    let reader = DatabaseReader::new(store);
    match reader.read_tag_data(0) {
        Err(DatabaseReadErrorKind::IOError) => {}
        _ => panic!("an undersized payload must fail with IOError"),
    }
}

#[test]
fn tag_data_invalid_utf8_text() {
    let d = record(10, 10, vec![], 5, 2, TagType::Text(String::from("ab")));
    let mut store = encode_tag_data(&d);
    store[49] = 0xFF;
    store[50] = 0xFE;
    let reader = DatabaseReader::new(store);
    match reader.read_tag_data(0) {
        Err(DatabaseReadErrorKind::StringValidity) => {}
        _ => panic!("non-UTF-8 text payload must fail with StringValidity"),
    }
}

#[test]
fn address_entry_encoding_is_little_endian() {
    let e = AddressEntry { name: 0x0102, address: 0x0304 };
    let bytes = encode_address_entry(&e);
    assert_eq!(
        bytes,
        vec![2, 1, 0, 0, 0, 0, 0, 0, 4, 3, 0, 0, 0, 0, 0, 0]
    );
}

#[test]
fn records_at_relative_addresses() {
    // Offsets are relative to the index table read last: the same record
    // address decodes differently once the reader is re-anchored.
    let d = record(21, 10, vec![], 0, 8, TagType::Integer(77));
    let rec = encode_tag_data(&d);
    let t = IndexTable::new(0, 0, 0, 0, 0, 0);
    let mut store: Vec<u8> = vec![0; 64];
    put(&mut store, 64, &encode_index_table(&t));
    put(&mut store, 104 + 16, &rec);
    let mut reader = DatabaseReader::new(store);
    let _ = reader.read_index_table(64).unwrap();
    // address 56 relative to the table at 64: absolute 120 = 104 + 16
    let decoded = reader.read_tag_data(56).unwrap();
    assert_eq!(decoded.tag_id, 21);
    match decoded.tag_data {
        TagType::Integer(v) => assert_eq!(v, 77),
        _ => panic!("expected an integer payload"),
    }
}
