use btag::AddressEntry;
use btag::AddressList;

#[test]
fn address_entry_equality() {
    let a = AddressEntry { name: 1, address: 2 };
    let b = AddressEntry { name: 1, address: 2 };
    let c = AddressEntry { name: 1, address: 3 };
    assert_eq!(a, b);
    assert_ne!(a, c);
}

#[test]
fn address_list_equal_when_counts_and_entries_match() {
    let a = AddressList {
        address_count: 2,
        array: vec![
            AddressEntry { name: 1, address: 10 },
            AddressEntry { name: 2, address: 20 },
        ],
    };
    let b = AddressList {
        address_count: 2,
        array: vec![
            AddressEntry { name: 1, address: 10 },
            AddressEntry { name: 2, address: 20 },
        ],
    };
    assert!(a == b);
}

#[test]
fn address_list_unequal_on_count() {
    let a = AddressList { address_count: 1, array: vec![AddressEntry { name: 1, address: 10 }] };
    let b = AddressList { address_count: 2, array: vec![AddressEntry { name: 1, address: 10 }] };
    assert!(a != b);
}

#[test]
fn address_list_unequal_on_entry() {
    let a = AddressList { address_count: 1, array: vec![AddressEntry { name: 1, address: 10 }] };
    let b = AddressList { address_count: 1, array: vec![AddressEntry { name: 1, address: 11 }] };
    assert!(a != b);
}

#[test]
fn address_list_trailing_entry_breaks_equality() {
    // Even when the stored counts agree, an extra unmatched trailing entry
    // makes the lists unequal.
    let a = AddressList { address_count: 1, array: vec![AddressEntry { name: 1, address: 10 }] };
    let b = AddressList {
        address_count: 1,
        array: vec![
            AddressEntry { name: 1, address: 10 },
            AddressEntry { name: 9, address: 99 },
        ],
    };
    assert!(a != b);
}
