use ipinfo::error::MmdbError;
use ipinfo::metadata::{bytes_per_node, find_marker, MmdbMetadata};
use ipinfo::mmdb::{read_record, IpAddress, Mmdb, RecordReadResult};
use ipinfo::value::Type;

const MARKER: [u8; 14] = [
    0xab, 0xcd, 0xef, b'M', b'a', b'x', b'M', b'i', b'n', b'd', b'.', b'c', b'o', b'm',
];

/// A metadata map with the three required fields.
fn metadata_map(node_count: u8, record_size: u8, ip_version: u8) -> Vec<u8> {
    let mut out = vec![(7 << 5) | 3]; // map of three entries
    out.push((2 << 5) | 10);
    out.extend(b"node_count");
    out.extend([(6 << 5) | 1, node_count]); // U32
    out.push((2 << 5) | 11);
    out.extend(b"record_size");
    out.extend([(5 << 5) | 1, record_size]); // U16
    out.push((2 << 5) | 10);
    out.extend(b"ip_version");
    out.extend([(5 << 5) | 1, ip_version]); // U16
    out
}

/// A one-node database: the search tree's single node holds `left`
/// and `right` as 24-bit records, then the 16-byte separator, then a
/// data section holding the string "hit" at offset zero.
fn tiny_db(left: u32, right: u32, ip_version: u8) -> Vec<u8> {
    let mut db = Vec::new();
    db.extend(&left.to_be_bytes()[1..4]);
    db.extend(&right.to_be_bytes()[1..4]);
    db.extend([0u8; 16]); // separator
    db.extend([(2 << 5) | 3, b'h', b'i', b't']); // data section offset 0
    db.extend(MARKER);
    db.extend(metadata_map(1, 24, ip_version));
    db
}

#[test]
fn bytes_per_node_supported_sizes() {
    assert_eq!(bytes_per_node(24).unwrap(), 6);
    assert_eq!(bytes_per_node(28).unwrap(), 7);
    assert_eq!(bytes_per_node(32).unwrap(), 8);
    match bytes_per_node(30) {
        Err(MmdbError::InvalidMetadata(m)) => assert_eq!(m, "unsupported record_size"),
        other => panic!("expected invalid metadata, got {:?}", other),
    }
}

#[test]
fn metadata_from_map_value() {
    let map = Type::Mapping(vec![
        ("node_count".to_string(), Type::U32(5)),
        ("record_size".to_string(), Type::U16(28)),
        ("ip_version".to_string(), Type::U16(6)),
    ]);
    let m = MmdbMetadata::new(&map).unwrap();
    assert_eq!(m.node_count, 5);
    assert_eq!(m.record_size, 28);
    assert_eq!(m.ip_version, 6);
}

#[test]
fn metadata_missing_field() {
    let map = Type::Mapping(vec![("record_size".to_string(), Type::U16(28))]);
    match MmdbMetadata::new(&map) {
        Err(MmdbError::InvalidMetadata(m)) => assert_eq!(m, "does not contain node count"),
        other => panic!("expected invalid metadata, got {:?}", other),
    }
}

#[test]
fn metadata_wrong_variant() {
    // node_count as U16 instead of U32 counts as missing.
    let map = Type::Mapping(vec![
        ("node_count".to_string(), Type::U16(5)),
        ("record_size".to_string(), Type::U16(24)),
        ("ip_version".to_string(), Type::U16(4)),
    ]);
    match MmdbMetadata::new(&map) {
        Err(MmdbError::InvalidMetadata(m)) => assert_eq!(m, "does not contain node count"),
        other => panic!("expected invalid metadata, got {:?}", other),
    }
}

#[test]
fn metadata_not_a_map() {
    match MmdbMetadata::new(&Type::U32(5)) {
        Err(MmdbError::InvalidMetadata(m)) => assert_eq!(m, "metadata was not encoded as map"),
        other => panic!("expected invalid metadata, got {:?}", other),
    }
}

#[test]
fn record_classification() {
    let m = MmdbMetadata {
        node_count: 7,
        record_size: 24,
        ip_version: 4,
    };
    // One node: left record 5, right record 9.
    let node = vec![0, 0, 5, 0, 0, 9];
    match read_record(&node, &m, 0, false).unwrap() {
        RecordReadResult::TraverseTreeTo(p) => assert_eq!(p, 5 * 6),
        other => panic!("expected traversal, got {:?}", other),
    }
    // 9 > 7: data offset 9 - 7 - 16 + 6*7 + 16 = 44.
    match read_record(&node, &m, 0, true).unwrap() {
        RecordReadResult::Data(p) => assert_eq!(p, 44),
        other => panic!("expected data, got {:?}", other),
    }
    // A record equal to the node count means no data.
    let node_eq = vec![0, 0, 7, 0, 0, 7];
    match read_record(&node_eq, &m, 0, false).unwrap() {
        RecordReadResult::NoData => {}
        other => panic!("expected no data, got {:?}", other),
    }
}

#[test]
fn record_seven_byte_nibble_split() {
    let m = MmdbMetadata {
        node_count: u32::MAX,
        record_size: 28,
        ip_version: 4,
    };
    // Middle byte 0xAB: high nibble extends the left record, low the
    // right.
    let node = vec![0x01, 0x02, 0x03, 0xab, 0x04, 0x05, 0x06];
    match read_record(&node, &m, 0, false).unwrap() {
        RecordReadResult::TraverseTreeTo(p) => assert_eq!(p, 0x0a010203u64 * 7),
        other => panic!("expected traversal, got {:?}", other),
    }
    match read_record(&node, &m, 0, true).unwrap() {
        RecordReadResult::TraverseTreeTo(p) => assert_eq!(p, 0x0b040506u64 * 7),
        other => panic!("expected traversal, got {:?}", other),
    }
}

#[test]
fn marker_scan_picks_rightmost() {
    let mut data = vec![0u8; 40];
    data.extend(MARKER);
    let first_end = data.len();
    data.extend(vec![0u8; 10]);
    data.extend(MARKER);
    let second = data.len() - 14;
    data.extend(vec![0u8; 5]);
    assert_eq!(find_marker(&data).unwrap(), second);
    assert!(first_end - 14 < second);
}

#[test]
fn marker_absent() {
    let data = vec![0u8; 100];
    assert!(find_marker(&data).is_none());
    match Mmdb::new(data) {
        Err(MmdbError::MetadataNotFound) => {}
        other => {
            let _ = other.map(|_| ());
            panic!("expected metadata not found");
        }
    }
}

#[test]
fn open_uses_rightmost_marker() {
    // A decoy marker with an IPv4 metadata map, then the real marker
    // with an IPv6 one: queries must see the rightmost metadata.
    let mut db = Vec::new();
    db.extend([0, 0, 1, 0, 0, 1]); // one node, both records no-data
    db.extend([0u8; 16]);
    db.extend(MARKER);
    db.extend(metadata_map(1, 24, 4));
    db.extend(MARKER);
    db.extend(metadata_map(1, 24, 6));
    let handle = Mmdb::new(db).unwrap();
    // An IPv6 query succeeds, so the database is the IPv6 one.
    assert!(handle.query_ipv6(1).unwrap().is_none());
}

#[test]
fn end_to_end_top_bit_lookup() {
    // node_count 1, record_size 24: the root's left record is the
    // no-data sentinel, its right record points at the string "hit".
    let db = tiny_db(1, 17, 4);
    let handle = Mmdb::new(db).unwrap();
    // Top bit clear: left branch, no data.
    assert!(handle.query_ipv4(0x0000_0001).unwrap().is_none());
    assert!(handle.query_ipv4(0x7fff_ffff).unwrap().is_none());
    // Top bit set: right branch, the decoded string.
    match handle.query_ipv4(0x8000_0000).unwrap() {
        Some(Type::Utf8String(s)) => assert_eq!(s, "hit"),
        other => panic!("expected the string value, got {:?}", other),
    }
    match handle.query_ip(IpAddress::V4(0xffff_ffff)).unwrap() {
        Some(Type::Utf8String(s)) => assert_eq!(s, "hit"),
        other => panic!("expected the string value, got {:?}", other),
    }
}

#[test]
fn ipv4_on_ipv6_database_matches_mapped_query() {
    // left record hits the data so the 128-bit walk of a small
    // address (top bit clear) finds it.
    let db = tiny_db(17, 1, 6);
    let handle = Mmdb::new(db).unwrap();
    let via_v4 = handle.query_ipv4(0x0102_0304).unwrap();
    let via_v6 = handle.query_ipv6(0x0102_0304u128).unwrap();
    match (via_v4, via_v6) {
        (Some(Type::Utf8String(a)), Some(Type::Utf8String(b))) => {
            assert_eq!(a, "hit");
            assert_eq!(b, "hit");
        }
        other => panic!("expected matching results, got {:?}", other),
    }
}

#[test]
fn ipv6_on_ipv4_database_is_rejected() {
    let db = tiny_db(1, 17, 4);
    let handle = Mmdb::new(db).unwrap();
    match handle.query_ipv6(1) {
        Err(MmdbError::WrongDatabaseType) => {}
        other => panic!("expected wrong database type, got {:?}", other),
    }
    match handle.query_ip(IpAddress::V6(1)) {
        Err(MmdbError::WrongDatabaseType) => {}
        other => panic!("expected wrong database type, got {:?}", other),
    }
}

#[test]
fn unsupported_record_size_fails_at_query_time() {
    let mut db = Vec::new();
    db.extend([0, 0, 1, 0, 0, 1]);
    db.extend([0u8; 16]);
    db.extend(MARKER);
    db.extend(metadata_map(1, 30, 4));
    let handle = Mmdb::new(db).unwrap();
    match handle.query_ipv4(1) {
        Err(MmdbError::InvalidMetadata(m)) => assert_eq!(m, "unsupported record_size"),
        other => panic!("expected invalid metadata, got {:?}", other),
    }
}

#[test]
fn invalid_ip_version_rejects_queries() {
    let mut db = Vec::new();
    db.extend([0, 0, 1, 0, 0, 1]);
    db.extend([0u8; 16]);
    db.extend(MARKER);
    db.extend(metadata_map(1, 24, 9));
    let handle = Mmdb::new(db).unwrap();
    match handle.query_ipv4(1) {
        Err(MmdbError::InvalidMetadata(m)) => assert_eq!(m, "database has invalid ip version"),
        other => panic!("expected invalid metadata, got {:?}", other),
    }
    match handle.query_ipv6(1) {
        Err(MmdbError::InvalidMetadata(m)) => assert_eq!(m, "database has invalid ip version"),
        other => panic!("expected invalid metadata, got {:?}", other),
    }
}
