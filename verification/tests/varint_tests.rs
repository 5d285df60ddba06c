use steit::error::Error;
use steit::reader::Reader;
use steit::varint::{
    read_varint_u16, read_varint_u64, size_varint_u64, skip_varint, unzigzag_i64, write_varint_u64,
    zigzag_i64,
};

#[test]
fn varint_encodes_small_values_in_one_byte() {
    let mut out = Vec::new();
    write_varint_u64(&mut out, 0);
    write_varint_u64(&mut out, 1);
    write_varint_u64(&mut out, 127);
    assert_eq!(out, vec![0, 1, 127]);
}

#[test]
fn varint_encodes_multi_byte_values_little_group_first() {
    let mut out = Vec::new();
    write_varint_u64(&mut out, 300);
    assert_eq!(out, vec![0xAC, 0x02]);

    let mut out = Vec::new();
    write_varint_u64(&mut out, 128);
    assert_eq!(out, vec![0x80, 0x01]);
}

#[test]
fn varint_round_trips_values() {
    let values: Vec<u64> = vec![0, 1, 127, 128, 300, 16383, 16384, 1 << 32, u64::MAX];
    for &v in values.iter() {
        let mut out = Vec::new();
        write_varint_u64(&mut out, v);
        assert_eq!(size_varint_u64(v) as usize, out.len());
        let mut reader = Reader::new(out);
        assert_eq!(read_varint_u64(&mut reader), Ok(v));
        assert!(reader.is_exhausted());
    }
}

#[test]
fn varint_truncated_stream_reports_error() {
    let mut reader = Reader::new(vec![0x80]);
    assert_eq!(read_varint_u64(&mut reader), Err(Error::Truncated));

    let mut reader = Reader::new(vec![]);
    assert_eq!(read_varint_u64(&mut reader), Err(Error::Truncated));
}

#[test]
fn varint_value_beyond_u64_reports_overflow() {
    // 2 * 128^10 does not fit a u64.
    let mut bytes = vec![0x80u8; 10];
    bytes.push(0x02);
    let mut reader = Reader::new(bytes);
    assert_eq!(read_varint_u64(&mut reader), Err(Error::Overflow));

    // The largest ten-byte encoding that still fits: u64::MAX.
    let mut bytes = vec![0xFFu8; 9];
    bytes.push(0x01);
    let mut reader = Reader::new(bytes);
    assert_eq!(read_varint_u64(&mut reader), Ok(u64::MAX));
}

#[test]
fn varint_zero_padded_groups_still_decode() {
    // A non-canonical encoding of 5: trailing all-zero groups.
    let mut reader = Reader::new(vec![0x85, 0x80, 0x80, 0x00]);
    assert_eq!(read_varint_u64(&mut reader), Ok(5));
    assert!(reader.is_exhausted());
}

#[test]
fn varint_u16_rejects_wider_values() {
    let mut out = Vec::new();
    write_varint_u64(&mut out, 70000);
    let mut reader = Reader::new(out);
    assert_eq!(read_varint_u16(&mut reader), Err(Error::Overflow));

    let mut out = Vec::new();
    write_varint_u64(&mut out, 65535);
    let mut reader = Reader::new(out);
    assert_eq!(read_varint_u16(&mut reader), Ok(65535));
}

#[test]
fn skip_varint_consumes_exactly_one_varint() {
    let mut out = Vec::new();
    write_varint_u64(&mut out, u64::MAX);
    write_varint_u64(&mut out, 7);
    let mut reader = Reader::new(out);
    assert_eq!(skip_varint(&mut reader), Ok(()));
    assert_eq!(read_varint_u64(&mut reader), Ok(7));
    assert!(reader.is_exhausted());
}

#[test]
fn zigzag_maps_small_magnitudes_to_small_codes() {
    assert_eq!(zigzag_i64(0), 0);
    assert_eq!(zigzag_i64(-1), 1);
    assert_eq!(zigzag_i64(1), 2);
    assert_eq!(zigzag_i64(-2), 3);
    assert_eq!(zigzag_i64(2), 4);
}

#[test]
fn zigzag_round_trips_extremes() {
    let values: Vec<i64> = vec![0, -1, 1, i64::MIN, i64::MAX, -123456789, 123456789];
    for &v in values.iter() {
        assert_eq!(unzigzag_i64(zigzag_i64(v)), v);
    }
}
