use airplay2::plist::{decode, encode, PlistDecodeError, PlistEncodeError, PlistValue};

/// Lays out objects after the header, then a one-byte offset table and the
/// trailer (one-byte object references).
fn bplist(objects: &[Vec<u8>], top: u64) -> Vec<u8> {
    let mut data = b"bplist00".to_vec();
    let mut offsets = Vec::new();
    for obj in objects {
        offsets.push(data.len());
        data.extend_from_slice(obj);
    }
    let table = data.len();
    let offset_size: u8 = if table < 256 { 1 } else { 2 };
    for off in offsets {
        if offset_size == 1 {
            data.push(off as u8);
        } else {
            data.extend_from_slice(&(off as u16).to_be_bytes());
        }
    }
    data.extend_from_slice(&[0; 6]);
    data.push(offset_size);
    data.push(1);
    data.extend_from_slice(&(objects.len() as u64).to_be_bytes());
    data.extend_from_slice(&top.to_be_bytes());
    data.extend_from_slice(&(table as u64).to_be_bytes());
    data
}

#[test]
fn test_decode_invalid_magic() {
    let data = b"notplist";
    let result = decode(data);

    assert!(matches!(result, Err(PlistDecodeError::InvalidMagic(_))));
}

#[test]
fn test_decode_too_small() {
    let data = b"short";
    let result = decode(data);

    assert!(matches!(
        result,
        Err(PlistDecodeError::BufferTooSmall { .. })
    ));
}

#[test]
fn test_decode_invalid_trailer_offset() {
    let mut data = b"bplist00".to_vec();
    data.extend_from_slice(&[0; 32]);

    let len = data.len();
    let bad_offset = 9999u64;
    let offset_bytes = bad_offset.to_be_bytes();
    for i in 0..8 {
        data[len - 8 + i] = offset_bytes[i];
    }

    let res = decode(&data);
    assert!(matches!(
        res,
        Err(PlistDecodeError::BufferTooSmall { .. } | PlistDecodeError::InvalidTrailer)
    ));
}

#[test]
fn test_decode_invalid_object_marker() {
    let mut data = b"bplist00".to_vec();
    data.push(0xFF);

    let offset_table_start = data.len();
    data.push(8);

    data.extend_from_slice(&[0; 5]);
    data.push(0);
    data.push(1);
    data.push(1);
    data.extend_from_slice(&1u64.to_be_bytes());
    data.extend_from_slice(&0u64.to_be_bytes());
    data.extend_from_slice(&(offset_table_start as u64).to_be_bytes());

    assert!(matches!(
        decode(&data),
        Err(PlistDecodeError::InvalidObjectMarker(0xFF))
    ));
}

#[test]
fn test_decode_circular_reference() {
    let mut data = b"bplist00".to_vec();

    data.push(0xA1);
    data.push(0x00);

    let offset_table_start = data.len();
    data.push(8);

    data.extend_from_slice(&[0; 5]);
    data.push(0);
    data.push(1);
    data.push(1);
    data.extend_from_slice(&1u64.to_be_bytes());
    data.extend_from_slice(&0u64.to_be_bytes());
    data.extend_from_slice(&(offset_table_start as u64).to_be_bytes());

    assert!(matches!(
        decode(&data),
        Err(PlistDecodeError::CircularReference)
    ));
}

#[test]
fn plist_dictionary_of_scalars() {
    let data = bplist(
        &[
            vec![0xD2, 1, 2, 3, 4],
            vec![0x51, b'a'],
            vec![0x51, b'b'],
            vec![0x10, 0x01],
            vec![0x52, b'x', b'y'],
        ],
        0,
    );
    match decode(&data).unwrap() {
        PlistValue::Dictionary(entries) => {
            assert_eq!(entries.len(), 2);
            assert_eq!(entries[0].0, "a");
            assert!(matches!(entries[0].1, PlistValue::Integer(1)));
            assert_eq!(entries[1].0, "b");
            match &entries[1].1 {
                PlistValue::String(s) => assert_eq!(s, "xy"),
                other => panic!("unexpected {other:?}"),
            }
        }
        other => panic!("unexpected {other:?}"),
    }
}

#[test]
fn plist_scalar_kinds() {
    let one = |obj: Vec<u8>| decode(&bplist(&[obj], 0)).unwrap();
    assert!(matches!(one(vec![0x09]), PlistValue::Boolean(true)));
    assert!(matches!(one(vec![0x08]), PlistValue::Boolean(false)));
    assert!(matches!(
        one(vec![0x13, 0xff, 0xff, 0xff, 0xff, 0xff, 0xff, 0xff, 0xff]),
        PlistValue::Integer(-1)
    ));
    assert!(matches!(one(vec![0x11, 0x01, 0x00]), PlistValue::Integer(256)));
    let mut big = vec![0x14];
    big.extend_from_slice(&[0; 8]);
    big.extend_from_slice(&u64::MAX.to_be_bytes());
    assert!(matches!(one(big), PlistValue::UnsignedInteger(u64::MAX)));
    let mut real = vec![0x23];
    real.extend_from_slice(&1.5f64.to_bits().to_be_bytes());
    match one(real) {
        PlistValue::Real(bits) => assert_eq!(f64::from_bits(bits), 1.5),
        other => panic!("unexpected {other:?}"),
    }
    match one(vec![0x43, 1, 2, 3]) {
        PlistValue::Data(d) => assert_eq!(d, vec![1, 2, 3]),
        other => panic!("unexpected {other:?}"),
    }
    match one(vec![0x62, 0x00, b'h', 0x00, b'i']) {
        PlistValue::String(s) => assert_eq!(s, "hi"),
        other => panic!("unexpected {other:?}"),
    }
    let mut long = vec![0x4F, 0x10, 15];
    long.extend_from_slice(&[7; 15]);
    match one(long) {
        PlistValue::Data(d) => assert_eq!(d, vec![7; 15]),
        other => panic!("unexpected {other:?}"),
    }
    assert!(matches!(one(vec![0x81, 0x01, 0x02]), PlistValue::Uid(258)));
}

#[test]
fn plist_errors() {
    // A dictionary key that is not a string.
    let data = bplist(&[vec![0xD1, 1, 1], vec![0x10, 0x05]], 0);
    assert!(matches!(decode(&data), Err(PlistDecodeError::InvalidKey)));
    // A string that is not ASCII.
    let data = bplist(&[vec![0x51, 0xC3]], 0);
    assert!(matches!(decode(&data), Err(PlistDecodeError::InvalidString)));
    // A reference past the last object.
    let data = bplist(&[vec![0xA1, 5]], 0);
    assert!(matches!(decode(&data), Err(PlistDecodeError::InvalidObjectRef(5))));
    // Nesting deeper than the limit.
    let mut objects = Vec::new();
    for i in 0..40u8 {
        objects.push(vec![0xA1, i + 1]);
    }
    objects.push(vec![0x09]);
    let data = bplist(&objects, 0);
    assert!(matches!(decode(&data), Err(PlistDecodeError::TooDeep)));
    // Shared objects are not circular.
    let data = bplist(&[vec![0xA2, 1, 1], vec![0x09]], 0);
    match decode(&data).unwrap() {
        PlistValue::Array(items) => assert_eq!(items.len(), 2),
        other => panic!("unexpected {other:?}"),
    }
    // A count that runs past the object area.
    let data = bplist(&[vec![0x45, 1]], 0);
    assert!(matches!(
        decode(&data),
        Err(PlistDecodeError::BufferTooSmall { needed: 14, available: 10 })
    ));
}

/// The value stored under `key` in dictionary entries.
fn lookup<'a>(entries: &'a [(String, PlistValue)], key: &str) -> Option<&'a PlistValue> {
    entries.iter().find(|(k, _)| k == key).map(|(_, v)| v)
}

#[test]
fn mod_test_plist_value_accessors() {
    let value = PlistValue::Integer(42);
    assert_eq!(value.as_i64(), Some(42));
    assert_eq!(value.as_str(), None);
    assert_eq!(value.as_bool(), None);
}

#[test]
fn tests_test_plist_value_accessors() {
    let value = PlistValue::Integer(42);
    assert_eq!(value.as_i64(), Some(42));
    assert_eq!(value.as_str(), None);
    assert_eq!(value.as_bool(), None);
}

#[test]
fn test_encode_boolean() {
    let value = PlistValue::Boolean(true);
    let encoded = encode(&value).unwrap();
    assert_eq!(&encoded[0..8], b"bplist00");
}

#[test]
fn tests_test_encode_integers() {
    for value in [0i64, 1, 127, 128, 255, 256, 65535, -1, -128, i64::MAX, i64::MIN] {
        let plist = PlistValue::Integer(value);
        let encoded = encode(&plist).unwrap();
        let decoded = decode(&encoded).expect("Decode failed");
        assert_eq!(decoded.as_i64(), Some(value), "Failed for value: {value}");
    }
}

#[test]
fn tests_test_encode_string() {
    let value = PlistValue::String("hello world".to_string());
    let encoded = encode(&value).unwrap();
    let decoded = decode(&encoded).unwrap();
    assert_eq!(decoded.as_str(), Some("hello world"));
}

#[test]
fn test_encode_array() {
    let value = PlistValue::Array(vec![
        PlistValue::Integer(1),
        PlistValue::Integer(2),
        PlistValue::String("three".to_string()),
    ]);
    let encoded = encode(&value).unwrap();
    let decoded = decode(&encoded).unwrap();
    let arr = decoded.as_array().unwrap();
    assert_eq!(arr.len(), 3);
    assert_eq!(arr[0].as_i64(), Some(1));
    assert_eq!(arr[2].as_str(), Some("three"));
}

#[test]
fn test_encode_dictionary() {
    let dict = vec![
        ("key1".to_string(), PlistValue::Integer(42)),
        ("key2".to_string(), PlistValue::String("value".to_string())),
    ];
    let value = PlistValue::Dictionary(dict);
    let encoded = encode(&value).unwrap();
    let decoded = decode(&encoded).unwrap();

    let d = decoded.as_dict().unwrap();
    assert_eq!(lookup(d, "key1").and_then(PlistValue::as_i64), Some(42));
    assert_eq!(lookup(d, "key2").and_then(PlistValue::as_str), Some("value"));
}

#[test]
fn test_encode_decode_large_dict() {
    let mut dict = Vec::new();
    for i in 0..100 {
        dict.push((format!("key{i}"), PlistValue::Integer(i)));
    }
    let value = PlistValue::Dictionary(dict);
    let encoded = encode(&value).unwrap();
    let decoded = decode(&encoded).unwrap();

    let d = decoded.as_dict().unwrap();
    assert_eq!(d.len(), 100);
    assert_eq!(lookup(d, "key50").and_then(PlistValue::as_i64), Some(50));
}

#[test]
fn test_decode_empty_string() {
    let value = PlistValue::String("".to_string());
    let encoded = encode(&value).unwrap();
    let decoded = decode(&encoded).unwrap();
    assert_eq!(decoded.as_str(), Some(""));
}

#[test]
fn test_encode_decode_nested_mixed() {
    let dict = vec![
        ("int".to_string(), PlistValue::Integer(1)),
        (
            "arr".to_string(),
            PlistValue::Array(vec![
                PlistValue::Boolean(true),
                PlistValue::String("s".to_string()),
            ]),
        ),
    ];
    let value = PlistValue::Dictionary(dict);
    let encoded = encode(&value).unwrap();
    let decoded = decode(&encoded).unwrap();

    let d = decoded.as_dict().unwrap();
    let arr = lookup(d, "arr").unwrap().as_array().unwrap();
    assert_eq!(arr[0].as_bool(), Some(true));
}

#[test]
fn plist_encode_exact_bytes() {
    // A one-object list: header, the object, a one-byte offset table, the trailer.
    let encoded = encode(&PlistValue::Integer(5)).unwrap();
    let mut expected = b"bplist00".to_vec();
    expected.extend_from_slice(&[0x10, 5, 8]);
    expected.extend_from_slice(&[0, 0, 0, 0, 0, 0, 1, 1]);
    expected.extend_from_slice(&1u64.to_be_bytes());
    expected.extend_from_slice(&0u64.to_be_bytes());
    expected.extend_from_slice(&10u64.to_be_bytes());
    assert_eq!(encoded, expected);

    // A negative integer takes eight bytes.
    let encoded = encode(&PlistValue::Integer(-2)).unwrap();
    assert_eq!(&encoded[8..17], &[0x13, 0xff, 0xff, 0xff, 0xff, 0xff, 0xff, 0xff, 0xfe]);
}

#[test]
fn plist_roundtrip_every_kind() {
    let value = PlistValue::Dictionary(vec![
        ("b".to_string(), PlistValue::Boolean(false)),
        ("u".to_string(), PlistValue::UnsignedInteger(u64::MAX)),
        ("r".to_string(), PlistValue::Real(0x4009_21fb_5444_2d18)),
        ("f".to_string(), PlistValue::Real32(0x4049_0fdb)),
        ("t".to_string(), PlistValue::Date(0x41c0_0000_0000_0000)),
        ("s".to_string(), PlistValue::String("héllo wörld, ♫".to_string())),
        ("d".to_string(), PlistValue::Data((0u8..40).collect())),
        ("k".to_string(), PlistValue::Uid(7)),
        ("long text key for the count".to_string(), PlistValue::Array((0..20).map(PlistValue::Integer).collect())),
        ("ü".to_string(), PlistValue::Dictionary(Vec::new())),
    ]);
    let encoded = encode(&value).unwrap();
    let decoded = decode(&encoded).unwrap();
    let a = format!("{value:?}");
    let b = format!("{decoded:?}");
    assert_eq!(a, b);
}

#[test]
fn plist_encode_too_deep() {
    let mut value = PlistValue::Integer(0);
    for _ in 0..32 {
        value = PlistValue::Array(vec![value]);
    }
    assert!(matches!(encode(&value), Err(PlistEncodeError::TooDeep)));
    // One level less nests deep enough and reads back.
    let mut value = PlistValue::Integer(0);
    for _ in 0..31 {
        value = PlistValue::Array(vec![value]);
    }
    let encoded = encode(&value).unwrap();
    assert!(decode(&encoded).is_ok());
}
