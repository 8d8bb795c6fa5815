use ipinfo::decode::{read_type, POINTER_DEPTH_LIMIT};
use ipinfo::error::MmdbError;
use ipinfo::metadata::MmdbMetadata;
use ipinfo::value::Type;

fn meta(node_count: u32, record_size: u16, ip_version: u16) -> MmdbMetadata {
    MmdbMetadata {
        node_count,
        record_size,
        ip_version,
    }
}

#[test]
fn size_hint_literal() {
    // tag 4 (bytes), hint 3: three bytes follow directly.
    let data = vec![(4 << 5) | 3, 0xaa, 0xbb, 0xcc];
    let (v, end) = read_type(&data, 0, None, POINTER_DEPTH_LIMIT).unwrap();
    match v {
        Type::Bytes(b) => assert_eq!(b, vec![0xaa, 0xbb, 0xcc]),
        other => panic!("expected bytes, got {:?}", other),
    }
    assert_eq!(end, 4);
}

#[test]
fn size_hint_29_adds_next_byte() {
    // hint 29 with next byte 3: size = 29 + 3 = 32.
    let mut data = vec![(4 << 5) | 29, 3];
    data.extend(std::iter::repeat(0x11).take(32));
    let (v, end) = read_type(&data, 0, None, POINTER_DEPTH_LIMIT).unwrap();
    match v {
        Type::Bytes(b) => assert_eq!(b.len(), 32),
        other => panic!("expected bytes, got {:?}", other),
    }
    assert_eq!(end, 2 + 32);
}

#[test]
fn size_hint_30_adds_285() {
    // hint 30 with next two bytes 0x0001: size = 285 + 1 = 286.
    let mut data = vec![(4 << 5) | 30, 0x00, 0x01];
    data.extend(std::iter::repeat(0x22).take(286));
    let (v, end) = read_type(&data, 0, None, POINTER_DEPTH_LIMIT).unwrap();
    match v {
        Type::Bytes(b) => assert_eq!(b.len(), 286),
        other => panic!("expected bytes, got {:?}", other),
    }
    assert_eq!(end, 3 + 286);
}

#[test]
fn size_hint_31_adds_65821() {
    // hint 31 with next three bytes 0x000002: size = 65821 + 2 = 65823.
    let mut data = vec![(4 << 5) | 31, 0x00, 0x00, 0x02];
    data.extend(std::iter::repeat(0x33).take(65823));
    let (v, end) = read_type(&data, 0, None, POINTER_DEPTH_LIMIT).unwrap();
    match v {
        Type::Bytes(b) => assert_eq!(b.len(), 65823),
        other => panic!("expected bytes, got {:?}", other),
    }
    assert_eq!(end, 4 + 65823);
}

#[test]
fn decode_string() {
    let data = vec![(2 << 5) | 3, b'h', b'i', b't'];
    let (v, end) = read_type(&data, 0, None, POINTER_DEPTH_LIMIT).unwrap();
    match v {
        Type::Utf8String(s) => assert_eq!(s, "hit"),
        other => panic!("expected string, got {:?}", other),
    }
    assert_eq!(end, 4);
}

#[test]
fn decode_u16() {
    let data = vec![(5 << 5) | 2, 0x12, 0x34];
    match read_type(&data, 0, None, POINTER_DEPTH_LIMIT).unwrap().0 {
        Type::U16(x) => assert_eq!(x, 0x1234),
        other => panic!("expected u16, got {:?}", other),
    }
}

#[test]
fn decode_u16_size_zero_is_zero() {
    let data = vec![(5 << 5) | 0];
    match read_type(&data, 0, None, POINTER_DEPTH_LIMIT).unwrap().0 {
        Type::U16(x) => assert_eq!(x, 0),
        other => panic!("expected u16, got {:?}", other),
    }
}

#[test]
fn decode_u16_overflow_is_conversion_error() {
    // Three bytes whose value exceeds what a u16 can hold.
    let data = vec![(5 << 5) | 3, 0x01, 0x00, 0x00];
    match read_type(&data, 0, None, POINTER_DEPTH_LIMIT) {
        Err(MmdbError::BadConversion) => {}
        other => panic!("expected conversion error, got {:?}", other),
    }
}

#[test]
fn decode_u32() {
    let data = vec![(6 << 5) | 4, 0xde, 0xad, 0xbe, 0xef];
    match read_type(&data, 0, None, POINTER_DEPTH_LIMIT).unwrap().0 {
        Type::U32(x) => assert_eq!(x, 0xdeadbeef),
        other => panic!("expected u32, got {:?}", other),
    }
}

#[test]
fn decode_u64() {
    // tag 9 needs the escape byte: 9 = 7 + 2.
    let data = vec![2, 0x01, 0x02];
    let mut full = vec![(0 << 5) | 2u8];
    full.extend(data);
    match read_type(&full, 0, None, POINTER_DEPTH_LIMIT).unwrap().0 {
        Type::U64(x) => assert_eq!(x, 0x0102),
        other => panic!("expected u64, got {:?}", other),
    }
}

#[test]
fn decode_u128() {
    // tag 10 = 7 + 3, nine bytes of payload.
    let data = vec![
        (0 << 5) | 9,
        3,
        0x01,
        0x00,
        0x00,
        0x00,
        0x00,
        0x00,
        0x00,
        0x00,
        0x00,
    ];
    match read_type(&data, 0, None, POINTER_DEPTH_LIMIT).unwrap().0 {
        Type::U128(x) => assert_eq!(x, 1u128 << 64),
        other => panic!("expected u128, got {:?}", other),
    }
}

#[test]
fn decode_s32_negative() {
    // tag 8 = 7 + 1 via escape, size 4: full signed value.
    let data = vec![(0 << 5) | 4, 1, 0xff, 0xff, 0xff, 0xfe];
    match read_type(&data, 0, None, POINTER_DEPTH_LIMIT).unwrap().0 {
        Type::S32(x) => assert_eq!(x, -2),
        other => panic!("expected s32, got {:?}", other),
    }
}

#[test]
fn decode_s32_short_is_unsigned_extended() {
    // size 2: bytes 0xff 0xff give 65535, not -1.
    let data = vec![(0 << 5) | 2, 1, 0xff, 0xff];
    match read_type(&data, 0, None, POINTER_DEPTH_LIMIT).unwrap().0 {
        Type::S32(x) => assert_eq!(x, 65535),
        other => panic!("expected s32, got {:?}", other),
    }
}

#[test]
fn decode_s32_bad_size() {
    let data = vec![(0 << 5) | 5, 1, 0, 0, 0, 0, 0];
    match read_type(&data, 0, None, POINTER_DEPTH_LIMIT) {
        Err(MmdbError::InvalidData(m)) => assert_eq!(m, "bad s32 size"),
        other => panic!("expected invalid data, got {:?}", other),
    }
}

#[test]
fn decode_double_bits() {
    let bits = (1.5f64).to_bits();
    let mut data = vec![(3 << 5) | 8];
    data.extend(bits.to_be_bytes());
    match read_type(&data, 0, None, POINTER_DEPTH_LIMIT).unwrap().0 {
        Type::Double(x) => assert_eq!(f64::from_bits(x), 1.5),
        other => panic!("expected double, got {:?}", other),
    }
}

#[test]
fn decode_float_bits() {
    // tag 15 = 7 + 8 via escape; four big-endian bytes.
    let bits = (0.25f32).to_bits();
    let mut data = vec![(0 << 5) | 4, 8];
    data.extend(bits.to_be_bytes());
    match read_type(&data, 0, None, POINTER_DEPTH_LIMIT).unwrap().0 {
        Type::Float(x) => assert_eq!(f32::from_bits(x), 0.25),
        other => panic!("expected float, got {:?}", other),
    }
}

#[test]
fn decode_boolean_sizes() {
    // tag 14 = 7 + 7 via escape; the size hint is the value.
    let data_false = vec![(0 << 5) | 0, 7];
    match read_type(&data_false, 0, None, POINTER_DEPTH_LIMIT).unwrap().0 {
        Type::Boolean(b) => assert!(!b),
        other => panic!("expected boolean, got {:?}", other),
    }
    let data_true = vec![(0 << 5) | 1, 7];
    match read_type(&data_true, 0, None, POINTER_DEPTH_LIMIT).unwrap().0 {
        Type::Boolean(b) => assert!(b),
        other => panic!("expected boolean, got {:?}", other),
    }
}

#[test]
fn decode_boolean_bad_size() {
    let data = vec![(0 << 5) | 2, 7];
    match read_type(&data, 0, None, POINTER_DEPTH_LIMIT) {
        Err(MmdbError::InvalidData(m)) => assert_eq!(m, "invalid boolean"),
        other => panic!("expected invalid data, got {:?}", other),
    }
}

#[test]
fn decode_cache_container_unsupported() {
    // tag 12 = 7 + 5 via escape.
    let data = vec![(0 << 5) | 0, 5];
    match read_type(&data, 0, None, POINTER_DEPTH_LIMIT) {
        Err(MmdbError::NotImplemented(m)) => assert_eq!(m, "data cache container"),
        other => panic!("expected not implemented, got {:?}", other),
    }
}

#[test]
fn decode_end_marker_unsupported() {
    // tag 13 = 7 + 6 via escape.
    let data = vec![(0 << 5) | 0, 6];
    match read_type(&data, 0, None, POINTER_DEPTH_LIMIT) {
        Err(MmdbError::NotImplemented(m)) => assert_eq!(m, "end marker"),
        other => panic!("expected not implemented, got {:?}", other),
    }
}

#[test]
fn decode_map_with_duplicate_key_last_wins() {
    // Two entries under the same key: the later value replaces the earlier.
    let mut data = vec![(7 << 5) | 2];
    data.extend([(2 << 5) | 1, b'k', (5 << 5) | 1, 1]);
    data.extend([(2 << 5) | 1, b'k', (5 << 5) | 1, 2]);
    match read_type(&data, 0, None, POINTER_DEPTH_LIMIT).unwrap().0 {
        Type::Mapping(items) => {
            assert_eq!(items.len(), 1);
            assert_eq!(items[0].0, "k");
            match &items[0].1 {
                Type::U16(v) => assert_eq!(*v, 2),
                other => panic!("expected u16, got {:?}", other),
            }
        }
        other => panic!("expected map, got {:?}", other),
    }
}

#[test]
fn decode_map_non_string_key_fails() {
    let data = vec![(7 << 5) | 1, (5 << 5) | 1, 9, (5 << 5) | 1, 1];
    match read_type(&data, 0, None, POINTER_DEPTH_LIMIT) {
        Err(MmdbError::InvalidData(m)) => assert_eq!(m, "key field for map is not string"),
        other => panic!("expected invalid data, got {:?}", other),
    }
}

#[test]
fn decode_array_keeps_order() {
    // tag 11 = 7 + 4 via escape, two u16 elements.
    let data = vec![(0 << 5) | 2, 4, (5 << 5) | 1, 7, (5 << 5) | 1, 9];
    match read_type(&data, 0, None, POINTER_DEPTH_LIMIT).unwrap().0 {
        Type::Array(items) => {
            assert_eq!(items.len(), 2);
            match (&items[0], &items[1]) {
                (Type::U16(a), Type::U16(b)) => {
                    assert_eq!(*a, 7);
                    assert_eq!(*b, 9);
                }
                other => panic!("expected u16 pair, got {:?}", other),
            }
        }
        other => panic!("expected array, got {:?}", other),
    }
}

#[test]
fn decode_invalid_tag() {
    // Escape to tag 7 + 13 = 20, which the format does not define.
    let data = vec![(0 << 5) | 0, 13];
    match read_type(&data, 0, None, POINTER_DEPTH_LIMIT) {
        Err(MmdbError::InvalidData(m)) => assert_eq!(m, "invalid data type specifier"),
        other => panic!("expected invalid data, got {:?}", other),
    }
}

#[test]
fn decode_truncated_input_is_io_error() {
    let data = vec![(2 << 5) | 5, b'a', b'b'];
    match read_type(&data, 0, None, POINTER_DEPTH_LIMIT) {
        Err(MmdbError::BadIo) => {}
        other => panic!("expected io error, got {:?}", other),
    }
}

#[test]
fn pointer_without_metadata_fails() {
    let data = vec![(1 << 5) | 0, 0x00];
    match read_type(&data, 0, None, POINTER_DEPTH_LIMIT) {
        Err(MmdbError::InvalidData(m)) => {
            assert_eq!(m, "pointer addressed before metadata parsed")
        }
        other => panic!("expected invalid data, got {:?}", other),
    }
}

#[test]
fn pointer_resolves_and_restores_position() {
    // node_count 0, record size 24: a width-0 pointer with value v
    // targets file offset v + 16.
    let m = meta(0, 24, 4);
    let mut data = vec![(1 << 5) | 0, 0x02]; // pointer to offset 18
    data.extend(std::iter::repeat(0u8).take(16)); // offsets 2..18
    data.extend([(5 << 5) | 1, 42]); // offset 18: U16(42)
    let (v, end) = read_type(&data, 0, Some(&m), POINTER_DEPTH_LIMIT).unwrap();
    match v {
        Type::U16(x) => assert_eq!(x, 42),
        other => panic!("expected u16, got {:?}", other),
    }
    // The position after the pointer is right past its two bytes, not
    // wherever the target decode ended.
    assert_eq!(end, 2);
}

#[test]
fn pointer_cycle_fails_too_deep() {
    // A width-0 pointer at offset 16 whose target is offset 16: an
    // endless chain.
    let m = meta(0, 24, 4);
    let mut data = std::iter::repeat(0u8).take(16).collect::<Vec<u8>>();
    data.extend([(1 << 5) | 0, 0x00]); // offset 16, target 0 + 16 = 16
    match read_type(&data, 16, Some(&m), POINTER_DEPTH_LIMIT) {
        Err(MmdbError::TooDeep) => {}
        other => panic!("expected recursion guard, got {:?}", other),
    }
}

#[test]
fn sequential_decode_after_pointer_field() {
    // A map whose first value is a pointer: the second entry must
    // decode right after the pointer bytes.
    let m = meta(0, 24, 4);
    let mut data = vec![(7 << 5) | 2]; // map, two entries
    data.extend([(2 << 5) | 1, b'p', (1 << 5) | 0, 14]); // "p" -> pointer to offset 30
    data.extend([(2 << 5) | 1, b'q', (5 << 5) | 1, 5]); // "q" -> U16(5)
    while data.len() < 30 {
        data.push(0);
    }
    data.extend([(5 << 5) | 1, 77]); // offset 30: U16(77), pointer target
    let (v, _) = read_type(&data, 0, Some(&m), POINTER_DEPTH_LIMIT).unwrap();
    match v {
        Type::Mapping(items) => {
            assert_eq!(items.len(), 2);
            assert_eq!(items[0].0, "p");
            match &items[0].1 {
                Type::U16(x) => assert_eq!(*x, 77),
                other => panic!("expected pointed-to u16, got {:?}", other),
            }
            assert_eq!(items[1].0, "q");
            match &items[1].1 {
                Type::U16(x) => assert_eq!(*x, 5),
                other => panic!("expected u16, got {:?}", other),
            }
        }
        other => panic!("expected map, got {:?}", other),
    }
}
