use nss_netns::address::{Addresses, Family, TypedAddress};
use nss_netns::classifier::{classify, read_literal, read_record};
use nss_netns::record::{AddressRecord, InterfaceRecord};

fn address(family: &str, literal: &str, scope: &str) -> AddressRecord {
    AddressRecord {
        family: family.to_string(),
        literal: literal.to_string(),
        scope: scope.to_string(),
    }
}

fn interface(class: &str, addresses: Vec<AddressRecord>) -> InterfaceRecord {
    InterfaceRecord { class: class.to_string(), addresses }
}

#[test]
fn literal_is_read_in_the_family_asked_for() {
    assert_eq!(read_literal("10.0.0.5", Family::V4), Some(TypedAddress::V4(0x0A00_0005)));
    assert_eq!(read_literal("10.0.0.5", Family::V6), None);
    assert_eq!(read_literal("::1", Family::V6), Some(TypedAddress::V6(1)));
    assert_eq!(read_literal("::1", Family::V4), None);
    assert_eq!(read_literal("blue", Family::V4), None);
}

#[test]
fn record_passes_the_three_filters() {
    let good = address("inet", "10.0.0.5", "global");
    assert_eq!(read_record("ether", &good, Family::V4), Some(TypedAddress::V4(0x0A00_0005)));
    assert_eq!(read_record("loopback", &good, Family::V4), None);
    assert_eq!(read_record("ether", &good, Family::V6), None);
    assert_eq!(read_record("ether", &address("inet", "10.0.0.5", "link"), Family::V4), None);
    assert_eq!(
        read_record("ether", &address("inet", "10.0.0.5", "host"), Family::V4),
        Some(TypedAddress::V4(0x0A00_0005))
    );
    assert_eq!(read_record("ether", &address("inet6", "10.0.0.5", "global"), Family::V6), None);
    assert_eq!(read_record("ether", &address("inet", "fe80::1", "global"), Family::V4), None);
    assert_eq!(read_record("Loopback", &good, Family::V4), Some(TypedAddress::V4(0x0A00_0005)));
}

#[test]
fn typed_address_knows_its_family() {
    assert_eq!(TypedAddress::V4(7).family(), Family::V4);
    assert_eq!(TypedAddress::V6(7).family(), Family::V6);
}

#[test]
fn address_list_keeps_one_family() {
    let mut list = Addresses::empty(Family::V4);
    assert!(list.is_empty());
    assert_eq!(list.family(), Family::V4);
    list.push(TypedAddress::V4(1));
    list.push(TypedAddress::V6(2));
    list.push(TypedAddress::V4(3));
    assert_eq!(list, Addresses::V4(vec![1, 3]));
    assert_eq!(list.len(), 2);
    assert!(list.contains(TypedAddress::V4(3)));
    assert!(!list.contains(TypedAddress::V4(2)));
    assert!(!list.contains(TypedAddress::V6(1)));
    let mut other = Addresses::empty(Family::V6);
    other.push(TypedAddress::V4(1));
    other.push(TypedAddress::V6(2));
    assert_eq!(other, Addresses::V6(vec![2]));
    assert_eq!(other.family(), Family::V6);
    assert!(other.contains(TypedAddress::V6(2)));
    assert!(!other.contains(TypedAddress::V4(2)));
}

#[test]
fn classification_keeps_order_and_duplicates() {
    let interfaces = vec![
        interface(
            "ether",
            vec![
                address("inet", "10.0.0.5", "global"),
                address("inet6", "2001:db8::1", "global"),
                address("inet", "10.0.0.6", "global"),
            ],
        ),
        interface("loopback", vec![address("inet", "127.0.0.1", "host")]),
        interface("none", vec![address("inet", "10.0.0.5", "global")]),
    ];
    assert_eq!(
        classify(&interfaces, Family::V4),
        Addresses::V4(vec![0x0A00_0005, 0x0A00_0006, 0x0A00_0005])
    );
    assert_eq!(
        classify(&interfaces, Family::V6),
        Addresses::V6(vec![0x2001_0db8_0000_0000_0000_0000_0000_0001])
    );
}

#[test]
fn loopback_interface_gives_no_address() {
    let interfaces = vec![
        interface(
            "loopback",
            vec![address("inet", "127.0.0.1", "host"), address("inet6", "::1", "host")],
        ),
        interface("loopback", vec![address("inet", "10.0.0.5", "global")]),
    ];
    assert_eq!(classify(&interfaces, Family::V4), Addresses::V4(vec![]));
    assert_eq!(classify(&interfaces, Family::V6), Addresses::V6(vec![]));
}

#[test]
fn link_scope_gives_no_address() {
    let interfaces = vec![interface(
        "ether",
        vec![address("inet6", "fe80::1", "link"), address("inet", "169.254.0.1", "link")],
    )];
    assert_eq!(classify(&interfaces, Family::V4), Addresses::V4(vec![]));
    assert_eq!(classify(&interfaces, Family::V6), Addresses::V6(vec![]));
}

#[test]
fn malformed_record_leaves_the_well_formed_one() {
    let interfaces = vec![interface(
        "ether",
        vec![
            address("inet", "not an address", "global"),
            address("inet", "10.0.0.5", "global"),
            address("inet", "fe80::1", "global"),
            address("inet", "10.0.0.256", "global"),
        ],
    )];
    assert_eq!(classify(&interfaces, Family::V4), Addresses::V4(vec![0x0A00_0005]));
    let reversed = vec![interface(
        "ether",
        vec![address("inet6", "2001:db8::7", "global"), address("inet6", "10.0.0.5", "global")],
    )];
    assert_eq!(
        classify(&reversed, Family::V6),
        Addresses::V6(vec![0x2001_0db8_0000_0000_0000_0000_0000_0007])
    );
}

#[test]
fn nothing_listed_gives_nothing() {
    assert_eq!(classify(&vec![], Family::V4), Addresses::V4(vec![]));
    assert_eq!(classify(&vec![interface("ether", vec![])], Family::V6), Addresses::V6(vec![]));
}
