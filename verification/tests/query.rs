use btag::encode::encode_tag_data;
use btag::AddressEntry;
use btag::AddressList;
use btag::DatabaseReadErrorKind;
use btag::DatabaseReader;
use btag::IntegerEquals;
use btag::TagNameEquals;
use btag::QueryEntry;
use btag::SearchResult;
use btag::TagData;
use btag::TagType;

fn put(store: &mut Vec<u8>, addr: usize, bytes: &[u8]) {
    if store.len() < addr + bytes.len() {
        store.resize(addr + bytes.len(), 0);
    }
    store[addr..addr + bytes.len()].copy_from_slice(bytes);
}

fn record(tag_id: u64, tag_name: u64, parents: Vec<AddressEntry>, value: u64) -> TagData<TagType> {
    let depth = parents.len() as u64;
    TagData::new(
        tag_id,
        0,
        tag_name,
        depth,
        16 * depth,
        AddressList { address_count: depth, array: parents },
        0,
        8,
        TagType::Integer(value),
    )
}

/// A three-level ancestry: C (at 200) is the parent of B (at 100), B is the
/// parent of A (at 0).  Payload values: A 1, B 5, C 7.
fn three_level_store() -> Vec<u8> {
    let c = record(3, 30, vec![], 7);
    let b = record(2, 20, vec![AddressEntry { name: 30, address: 200 }], 5);
    let a = record(1, 10, vec![AddressEntry { name: 20, address: 100 }], 1);
    let mut store: Vec<u8> = Vec::new();
    put(&mut store, 0, &encode_tag_data(&a));
    put(&mut store, 100, &encode_tag_data(&b));
    put(&mut store, 200, &encode_tag_data(&c));
    store
}

fn found_chains(r: Result<SearchResult, DatabaseReadErrorKind>) -> Vec<AddressList> {
    match r {
        Ok(SearchResult::Found(ls)) => ls,
        _ => panic!("expected Found"),
    }
}

#[test]
fn upstream_single_chain() {
    let reader = DatabaseReader::new(three_level_store());
    let a = reader.read_tag_data(0).unwrap();
    let query: Vec<QueryEntry<IntegerEquals>> =
        vec![QueryEntry::Name(20), QueryEntry::Name(30)];
    let ls = found_chains(reader.find_upstream(&query, 0, &a));
    assert_eq!(ls.len(), 1);
    assert_eq!(ls[0].address_count, 2);
    assert_eq!(
        ls[0].array,
        vec![
            AddressEntry { name: 20, address: 100 },
            AddressEntry { name: 30, address: 200 },
        ]
    );
}

#[test]
fn upstream_no_match_is_none() {
    let reader = DatabaseReader::new(three_level_store());
    let a = reader.read_tag_data(0).unwrap();
    let query: Vec<QueryEntry<IntegerEquals>> = vec![QueryEntry::Name(99)];
    match reader.find_upstream(&query, 0, &a) {
        Ok(SearchResult::NoMatch) => {}
        _ => panic!("a name that appears nowhere upstream must report no match"),
    }
}

#[test]
fn upstream_match_by_id() {
    let reader = DatabaseReader::new(three_level_store());
    let a = reader.read_tag_data(0).unwrap();
    let query: Vec<QueryEntry<IntegerEquals>> = vec![QueryEntry::Id(2)];
    let ls = found_chains(reader.find_upstream(&query, 0, &a));
    assert_eq!(ls.len(), 1);
    assert_eq!(ls[0].array, vec![AddressEntry { name: 20, address: 100 }]);
}

#[test]
fn upstream_match_by_array_index() {
    // A tag with two parents; the step selects the second by position.
    let c = record(3, 30, vec![], 7);
    let b = record(2, 20, vec![], 5);
    let a = record(
        1,
        10,
        vec![
            AddressEntry { name: 20, address: 100 },
            AddressEntry { name: 30, address: 200 },
        ],
        1,
    );
    let mut store: Vec<u8> = Vec::new();
    put(&mut store, 0, &encode_tag_data(&a));
    put(&mut store, 100, &encode_tag_data(&b));
    put(&mut store, 200, &encode_tag_data(&c));
    let reader = DatabaseReader::new(store);
    let a = reader.read_tag_data(0).unwrap();
    let query: Vec<QueryEntry<IntegerEquals>> = vec![QueryEntry::ArrayIndex(1)];
    let ls = found_chains(reader.find_upstream(&query, 0, &a));
    assert_eq!(ls.len(), 1);
    assert_eq!(ls[0].array, vec![AddressEntry { name: 30, address: 200 }]);
}

#[test]
fn upstream_strict_predicate() {
    let reader = DatabaseReader::new(three_level_store());
    let a = reader.read_tag_data(0).unwrap();
    // B's payload is 5: the strict predicate accepts exactly it.
    let query: Vec<QueryEntry<IntegerEquals>> =
        vec![QueryEntry::Conditional(IntegerEquals { value: 5 })];
    let ls = found_chains(reader.find_upstream(&query, 0, &a));
    assert_eq!(ls.len(), 1);
    assert_eq!(ls[0].array, vec![AddressEntry { name: 20, address: 100 }]);
    // A strict predicate that holds nowhere at the first level reports
    // no match: it is not retried further up.
    let query: Vec<QueryEntry<IntegerEquals>> =
        vec![QueryEntry::Conditional(IntegerEquals { value: 7 })];
    match reader.find_upstream(&query, 0, &a) {
        Ok(SearchResult::NoMatch) => {}
        _ => panic!("a strict predicate failing at the parent must not ride along"),
    }
}

#[test]
fn upstream_predicate_on_stored_name() {
    let reader = DatabaseReader::new(three_level_store());
    let a = reader.read_tag_data(0).unwrap();
    // B was stored under name 20: a predicate over the decoded record's
    // own name field finds it.
    let query: Vec<QueryEntry<TagNameEquals>> =
        vec![QueryEntry::Conditional(TagNameEquals { name: 20 })];
    let ls = found_chains(reader.find_upstream(&query, 0, &a));
    assert_eq!(ls.len(), 1);
    assert_eq!(ls[0].array, vec![AddressEntry { name: 20, address: 100 }]);
}

#[test]
fn upstream_soft_predicate_rides_through() {
    let reader = DatabaseReader::new(three_level_store());
    let a = reader.read_tag_data(0).unwrap();
    // The soft predicate fails at B (payload 5) but succeeds at C
    // (payload 7): the chain keeps B as a pass-through hop and the step is
    // consumed at C.
    let query: Vec<QueryEntry<IntegerEquals>> =
        vec![QueryEntry::UpstreamConditional(IntegerEquals { value: 7 })];
    let ls = found_chains(reader.find_upstream(&query, 0, &a));
    assert_eq!(ls.len(), 1);
    assert_eq!(
        ls[0].array,
        vec![
            AddressEntry { name: 20, address: 100 },
            AddressEntry { name: 30, address: 200 },
        ]
    );
}

#[test]
fn upstream_duplicate_chains_suppressed() {
    // Two identical parent entries open two branches that reach the same
    // ancestor chain; it must be reported once.
    let b = record(2, 20, vec![], 5);
    let a = record(
        1,
        10,
        vec![
            AddressEntry { name: 20, address: 100 },
            AddressEntry { name: 20, address: 100 },
        ],
        1,
    );
    let mut store: Vec<u8> = Vec::new();
    put(&mut store, 0, &encode_tag_data(&a));
    put(&mut store, 100, &encode_tag_data(&b));
    let reader = DatabaseReader::new(store);
    let a = reader.read_tag_data(0).unwrap();
    let query: Vec<QueryEntry<IntegerEquals>> = vec![QueryEntry::Name(20)];
    let ls = found_chains(reader.find_upstream(&query, 0, &a));
    assert_eq!(ls.len(), 1);
    assert_eq!(ls[0].array, vec![AddressEntry { name: 20, address: 100 }]);
}

#[test]
fn upstream_corrupt_parent_excluded() {
    // One parent address points far past the end of the store; an id match
    // must skip it and still find the intact sibling.
    let b = record(2, 20, vec![], 5);
    let a = record(
        1,
        10,
        vec![
            AddressEntry { name: 21, address: 5000 },
            AddressEntry { name: 20, address: 100 },
        ],
        1,
    );
    let mut store: Vec<u8> = Vec::new();
    put(&mut store, 0, &encode_tag_data(&a));
    put(&mut store, 100, &encode_tag_data(&b));
    let reader = DatabaseReader::new(store);
    let a = reader.read_tag_data(0).unwrap();
    let query: Vec<QueryEntry<IntegerEquals>> = vec![QueryEntry::Id(2)];
    let ls = found_chains(reader.find_upstream(&query, 0, &a));
    assert_eq!(ls.len(), 1);
    assert_eq!(ls[0].array, vec![AddressEntry { name: 20, address: 100 }]);
}

#[test]
fn upstream_empty_query_is_match() {
    let reader = DatabaseReader::new(three_level_store());
    let a = reader.read_tag_data(0).unwrap();
    let query: Vec<QueryEntry<IntegerEquals>> = vec![];
    match reader.find_upstream(&query, 0, &a) {
        Ok(SearchResult::Match(chain)) => assert!(chain.is_empty()),
        _ => panic!("an empty query is already consumed"),
    }
}

#[test]
fn upstream_unreadable_parent_block_is_io_error() {
    // The start tag claims a parent block far larger than the store.
    let reader = DatabaseReader::new(vec![0u8; 64]);
    let a = TagData::new(
        1,
        0,
        10,
        4,
        64,
        AddressList { address_count: 4, array: vec![] },
        0,
        8,
        TagType::Integer(1),
    );
    let query: Vec<QueryEntry<IntegerEquals>> = vec![QueryEntry::Name(20)];
    match reader.find_upstream(&query, 0, &a) {
        Err(DatabaseReadErrorKind::IOError) => {}
        _ => panic!("an unreadable start parent block must fail with IOError"),
    }
}

#[test]
fn upstream_two_chains_found() {
    // Two distinct parents both match by name: two distinct chains.
    let b = record(2, 20, vec![], 5);
    let c = record(3, 20, vec![], 7);
    let a = record(
        1,
        10,
        vec![
            AddressEntry { name: 20, address: 100 },
            AddressEntry { name: 20, address: 200 },
        ],
        1,
    );
    let mut store: Vec<u8> = Vec::new();
    put(&mut store, 0, &encode_tag_data(&a));
    put(&mut store, 100, &encode_tag_data(&b));
    put(&mut store, 200, &encode_tag_data(&c));
    let reader = DatabaseReader::new(store);
    let a = reader.read_tag_data(0).unwrap();
    let query: Vec<QueryEntry<IntegerEquals>> = vec![QueryEntry::Name(20)];
    let ls = found_chains(reader.find_upstream(&query, 0, &a));
    assert_eq!(ls.len(), 2);
    let one = vec![AddressEntry { name: 20, address: 100 }];
    let two = vec![AddressEntry { name: 20, address: 200 }];
    assert!(ls.iter().any(|l| l.array == one));
    assert!(ls.iter().any(|l| l.array == two));
}
