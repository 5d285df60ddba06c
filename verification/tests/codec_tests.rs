use steit::de::{exhaust_nested, Deserialize};
use steit::error::Error;
use steit::node::{Child, Root};
use steit::reader::Reader;
use steit::ser::Serialize;
use steit::varint::read_varint_u64;
use steit::wire_type::{key, split_key, WIRE_TYPE_SIZED, WIRE_TYPE_VARINT};

#[test]
fn scalar_round_trips_through_serialize_and_deserialize() {
    let values: Vec<u64> = vec![0, 1, 127, 128, 300, u64::MAX];
    for &v in values.iter() {
        let mut bytes = Vec::new();
        v.serialize(&mut bytes).unwrap();
        let mut reader = Reader::new(bytes);
        assert_eq!(<u64 as Deserialize>::deserialize(&mut reader), Ok(v));
        assert!(reader.is_exhausted());
    }
}

#[test]
fn compute_size_matches_written_bytes() {
    let values: Vec<u64> = vec![0, 127, 128, 300, u64::MAX];
    for &v in values.iter() {
        let mut bytes = Vec::new();
        v.serialize_with_cached_size(&mut bytes).unwrap();
        assert_eq!(v.compute_size() as usize, bytes.len());
    }
}

#[test]
fn merge_overwrites_scalar_in_place() {
    let mut bytes = Vec::new();
    300u64.serialize(&mut bytes).unwrap();
    let mut value: u64 = 5;
    let mut reader = Reader::new(bytes);
    value.merge(&mut reader).unwrap();
    assert_eq!(value, 300);
}

#[test]
fn bool_rides_the_scalar_path() {
    let mut bytes = Vec::new();
    true.serialize(&mut bytes).unwrap();
    false.serialize(&mut bytes).unwrap();
    assert_eq!(bytes, vec![1, 0]);
    let mut reader = Reader::new(bytes);
    assert_eq!(<bool as Deserialize>::deserialize(&mut reader), Ok(true));
    assert_eq!(<bool as Deserialize>::deserialize(&mut reader), Ok(false));
}

#[test]
fn key_packs_tag_and_wire_type() {
    assert_eq!(key(1, WIRE_TYPE_VARINT), 8);
    assert_eq!(key(1, WIRE_TYPE_SIZED), 10);
    assert_eq!(key(0, WIRE_TYPE_VARINT), 0);
    assert_eq!(<u64 as Serialize>::key(3), 24);
    assert_eq!(split_key(26), (3, 2));
}

#[test]
fn exhaust_skips_unknown_varint_field() {
    // An unknown varint field (300), then a known byte.
    let mut reader = Reader::new(vec![0xAC, 0x02, 0x07]);
    assert_eq!(exhaust_nested(99, WIRE_TYPE_VARINT, &mut reader), Ok(()));
    assert_eq!(read_varint_u64(&mut reader), Ok(7));
    assert!(reader.is_exhausted());
}

#[test]
fn exhaust_skips_unknown_sized_field() {
    // An unknown sized field of three bytes, then a known byte.
    let mut reader = Reader::new(vec![0x03, 0xAA, 0xBB, 0xCC, 0x07]);
    assert_eq!(exhaust_nested(99, WIRE_TYPE_SIZED, &mut reader), Ok(()));
    assert_eq!(read_varint_u64(&mut reader), Ok(7));
    assert!(reader.is_exhausted());
}

#[test]
fn exhaust_rejects_malformed_wire_type() {
    let mut reader = Reader::new(vec![0x01, 0x02]);
    assert_eq!(
        exhaust_nested(7, 5, &mut reader),
        Err(Error::Malformed { tag: 7, wire_type: 5 })
    );
    let mut reader = Reader::new(vec![0x01, 0x02]);
    assert_eq!(
        exhaust_nested(42, 1, &mut reader),
        Err(Error::Malformed { tag: 42, wire_type: 1 })
    );
}

#[test]
fn exhaust_truncated_sized_field_reports_error() {
    // Declared length 5, only two bytes available.
    let mut reader = Reader::new(vec![0x05, 0x01, 0x02]);
    assert_eq!(
        exhaust_nested(99, WIRE_TYPE_SIZED, &mut reader),
        Err(Error::Truncated)
    );
}

#[test]
fn unknown_fields_skip_cleanly_inside_a_record() {
    // A record with fields tag 1 (known), tag 2 (unknown, sized),
    // tag 3 (unknown, varint), tag 4 (known).
    let mut bytes = Vec::new();
    1u64.serialize_nested_omittable_with_cached_size(Some(1), false, &mut bytes)
        .unwrap();
    bytes.push((2 << 3) | WIRE_TYPE_SIZED); // unknown sized field
    bytes.push(2);
    bytes.push(0xDE);
    bytes.push(0xAD);
    bytes.push((3 << 3) | WIRE_TYPE_VARINT); // unknown varint field
    bytes.push(0x2A);
    9u64.serialize_nested_omittable_with_cached_size(Some(4), false, &mut bytes)
        .unwrap();

    let mut field1: u64 = 0;
    let mut field4: u64 = 0;
    let mut reader = Reader::new(bytes);
    while !reader.is_exhausted() {
        let key = steit::varint::read_varint_u32(&mut reader).unwrap();
        let (tag, wire_type) = split_key(key);
        match tag {
            1 => field1.merge_nested(&mut reader).unwrap(),
            4 => field4.merge_nested(&mut reader).unwrap(),
            _ => exhaust_nested(tag, wire_type, &mut reader).unwrap(),
        }
    }
    assert_eq!(field1, 1);
    assert_eq!(field4, 9);
}

#[test]
fn omittable_empty_field_contributes_nothing() {
    // A root serializes to zero bytes; as an omittable tagged field it
    // vanishes entirely from both the size and the output.
    let root = Root::new();
    assert_eq!(root.compute_size_nested_omittable(Some(5), true), 0);
    let mut bytes = Vec::new();
    root.serialize_nested_omittable_with_cached_size(Some(5), true, &mut bytes)
        .unwrap();
    assert_eq!(bytes, Vec::<u8>::new());
}

#[test]
fn non_omittable_empty_field_still_writes_its_framing() {
    let root = Root::new();
    // Key varint for (tag 5, sized), then a zero length prefix.
    assert_eq!(root.compute_size_nested_omittable(Some(5), false), 2);
    let mut bytes = Vec::new();
    root.serialize_nested_omittable_with_cached_size(Some(5), false, &mut bytes)
        .unwrap();
    assert_eq!(bytes, vec![42, 0]);
}

#[test]
fn child_serializes_as_its_tag() {
    let child = Child::new(300);
    let mut bytes = Vec::new();
    child.serialize(&mut bytes).unwrap();
    assert_eq!(bytes, vec![0xAC, 0x02]);
    assert_eq!(child.compute_size(), 2);
    assert_eq!(Root::new().compute_size(), 0);
}

#[test]
fn merge_nested_scalar_is_self_delimiting() {
    let mut bytes = Vec::new();
    300u64.serialize(&mut bytes).unwrap();
    bytes.push(0x07);
    let mut value: u64 = 0;
    let mut reader = Reader::new(bytes);
    value.merge_nested(&mut reader).unwrap();
    assert_eq!(value, 300);
    assert_eq!(read_varint_u64(&mut reader), Ok(7));
}
