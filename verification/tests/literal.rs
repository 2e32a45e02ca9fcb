use nss_netns::literal::{parse_ipv4, parse_ipv6, read_group, read_octet};
use nss_netns::text::{same_bytes, same_text, split_bytes};

#[test]
fn split_keeps_empty_chunks() {
    assert_eq!(split_bytes(b"", b'.'), vec![Vec::<u8>::new()]);
    assert_eq!(split_bytes(b"a", b'.'), vec![b"a".to_vec()]);
    assert_eq!(
        split_bytes(b"1.22..3.", b'.'),
        vec![b"1".to_vec(), b"22".to_vec(), Vec::new(), b"3".to_vec(), Vec::new()]
    );
    assert_eq!(split_bytes(b":", b':'), vec![Vec::<u8>::new(), Vec::new()]);
}

#[test]
fn same_text_compares_characters() {
    assert!(same_text("loopback", "loopback"));
    assert!(!same_text("loopback", "loopbac"));
    assert!(!same_text("link", "Link"));
    assert!(same_text("", ""));
    assert!(same_bytes(b"ab", b"ab"));
    assert!(!same_bytes(b"ab", b"ba"));
}

#[test]
fn octet_values_and_limits() {
    assert_eq!(read_octet(&b"0".to_vec()), Some(0));
    assert_eq!(read_octet(&b"10".to_vec()), Some(10));
    assert_eq!(read_octet(&b"255".to_vec()), Some(255));
    assert_eq!(read_octet(&b"256".to_vec()), None);
    assert_eq!(read_octet(&b"00".to_vec()), None);
    assert_eq!(read_octet(&b"01".to_vec()), None);
    assert_eq!(read_octet(&b"".to_vec()), None);
    assert_eq!(read_octet(&b"1000".to_vec()), None);
    assert_eq!(read_octet(&b"1a".to_vec()), None);
}

#[test]
fn group_values_and_limits() {
    assert_eq!(read_group(&b"0".to_vec()), Some(0));
    assert_eq!(read_group(&b"fe80".to_vec()), Some(0xfe80));
    assert_eq!(read_group(&b"FFFF".to_vec()), Some(0xffff));
    assert_eq!(read_group(&b"0001".to_vec()), Some(1));
    assert_eq!(read_group(&b"aB".to_vec()), Some(0xab));
    assert_eq!(read_group(&b"".to_vec()), None);
    assert_eq!(read_group(&b"12345".to_vec()), None);
    assert_eq!(read_group(&b"g".to_vec()), None);
}

#[test]
fn ipv4_exact_values() {
    assert_eq!(parse_ipv4(b"10.0.0.5"), Some(0x0A00_0005));
    assert_eq!(parse_ipv4(b"0.0.0.0"), Some(0));
    assert_eq!(parse_ipv4(b"255.255.255.255"), Some(0xFFFF_FFFF));
    assert_eq!(parse_ipv4(b"192.168.1.20"), Some(0xC0A8_0114));
    assert_eq!(parse_ipv4(b"1.2.3"), None);
    assert_eq!(parse_ipv4(b"1.2.3.4.5"), None);
    assert_eq!(parse_ipv4(b"1.2.3.256"), None);
    assert_eq!(parse_ipv4(b"01.2.3.4"), None);
    assert_eq!(parse_ipv4(b"1.2.3.4 "), None);
    assert_eq!(parse_ipv4(b""), None);
    assert_eq!(parse_ipv4(b"fe80::1"), None);
}

#[test]
fn ipv6_exact_values() {
    assert_eq!(parse_ipv6(b"::"), Some(0));
    assert_eq!(parse_ipv6(b"::1"), Some(1));
    assert_eq!(parse_ipv6(b"fe80::1"), Some(0xfe80_0000_0000_0000_0000_0000_0000_0001));
    assert_eq!(parse_ipv6(b"1::"), Some(0x0001_0000_0000_0000_0000_0000_0000_0000));
    assert_eq!(
        parse_ipv6(b"2001:db8:0:1:2:3:4:5"),
        Some(0x2001_0db8_0000_0001_0002_0003_0004_0005)
    );
    assert_eq!(parse_ipv6(b"::ffff:10.0.0.5"), Some(0x0000_ffff_0a00_0005));
    assert_eq!(
        parse_ipv6(b"1:2:3:4:5:6:1.2.3.4"),
        Some(0x0001_0002_0003_0004_0005_0006_0102_0304)
    );
    assert_eq!(parse_ipv6(b"1:2:3:4:5:6:7::"), Some(0x0001_0002_0003_0004_0005_0006_0007_0000));
    assert_eq!(parse_ipv6(b"1:2:3:4:5:6:7"), None);
    assert_eq!(parse_ipv6(b"1:2:3:4:5:6:7:8:9"), None);
    assert_eq!(parse_ipv6(b"1::2::3"), None);
    assert_eq!(parse_ipv6(b":::"), None);
    assert_eq!(parse_ipv6(b"1.2.3.4::"), None);
    assert_eq!(parse_ipv6(b"fe80::1%eth0"), None);
    assert_eq!(parse_ipv6(b"10.0.0.5"), None);
    assert_eq!(parse_ipv6(b""), None);
}

#[test]
fn texts_that_write_no_address() {
    let texts = [
        "", "0", "256.1.1.1", "1.2.3", "1.2.3.4.5", "1..2.3", ".1.2.3", "1.2.3.", "01.2.3.4",
        "1.02.3.4", "00.0.0.0", "1.2.3.4a", " 1.2.3.4", "1.2.3.-4", "1.2.3.+4", "999.1.1.1",
        "1.2.3.0004", ":::", "::::", ":", "1:", ":1", "1:2:3:4:5:6:7:8:9", "1:2:3:4:5:6:7",
        "1:2:3:4:5:6:7:8::", "::1:2:3:4:5:6:7:8", "1::2:3:4:5:6:7:8", "fe80::1%eth0", "12345::",
        "::12345", "g::", "::g", "1::2::3", "1:::2", "1.2.3.4::", "1:2:3:4:5:6:7:1.2.3.4",
        "1:2:3:4:5:1.2.3.4", "::1.2.3.4:5", "::01.2.3.4", "::1.2.3.256", "::1.2.3",
        "1:2:3:4:5:6::1.2.3.4", "1:2:3:4:5:6:7::1.2.3.4", "::1.2.3.4x", "1:2:3:4:5:6:7:",
        ":1:2:3:4:5:6:7", "1:2:3:4::5:6:7:8", "\u{e9}", "1.2.3.4\n", "::1 ",
    ];
    for text in texts {
        assert_eq!(parse_ipv4(text.as_bytes()), None, "IPv4 text {:?}", text);
        assert_eq!(parse_ipv6(text.as_bytes()), None, "IPv6 text {:?}", text);
    }
}

#[test]
fn texts_of_one_family_write_none_of_the_other() {
    let quads = ["1.2.3.4", "10.0.0.5", "255.255.255.255", "0.0.0.0"];
    for text in quads {
        assert!(parse_ipv4(text.as_bytes()).is_some(), "IPv4 text {:?}", text);
        assert_eq!(parse_ipv6(text.as_bytes()), None, "IPv6 text {:?}", text);
    }
    let colons = [
        "::", "::1", "1::", "1:2:3:4:5:6:7:8", "1:2:3:4:5:6:7::", "::2:3:4:5:6:7:8",
        "1::3:4:5:6:7:8", "fe80::1", "FE80::ABCD", "::ffff:1.2.3.4", "::1.2.3.4",
        "1:2:3:4:5:6:1.2.3.4", "1:2:3:4:5::1.2.3.4", "0:0:0:0:0:0:0:0",
        "0000:0000:0000:0000:0000:0000:0000:0000", "2001:db8::8a2e:370:7334", "::ffff:0:0",
        "64:ff9b::192.0.2.33", "a:b:c:d:e:f:0:1", "1:2:3:4::5:6:7",
    ];
    for text in colons {
        assert!(parse_ipv6(text.as_bytes()).is_some(), "IPv6 text {:?}", text);
        assert_eq!(parse_ipv4(text.as_bytes()), None, "IPv4 text {:?}", text);
    }
}

#[test]
fn gap_is_filled_with_zero_groups() {
    assert_eq!(
        parse_ipv6(b"2001:db8::8a2e:370:7334"),
        Some(0x2001_0db8_0000_0000_0000_8a2e_0370_7334)
    );
    assert_eq!(parse_ipv6(b"64:ff9b::192.0.2.33"), Some(0x0064_ff9b_0000_0000_0000_0000_c000_0221));
    assert_eq!(parse_ipv6(b"1:2:3:4::5:6:7"), Some(0x0001_0002_0003_0004_0000_0005_0006_0007));
    assert_eq!(parse_ipv6(b"1:2:3:4:5::1.2.3.4"), Some(0x0001_0002_0003_0004_0005_0000_0102_0304));
    assert_eq!(parse_ipv6(b"::2:3:4:5:6:7:8"), Some(0x0000_0002_0003_0004_0005_0006_0007_0008));
    assert_eq!(
        parse_ipv6(b"ffff:ffff:ffff:ffff:ffff:ffff:ffff:ffff"),
        Some(0xffff_ffff_ffff_ffff_ffff_ffff_ffff_ffff)
    );
}
