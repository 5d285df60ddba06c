use steit::error::Error;
use steit::path::Path;
use steit::reader::Reader;
use steit::ser::Serialize;

#[test]
fn empty_bytes_decode_to_the_root_path() {
    let mut reader = Reader::new(Vec::new());
    let path = Path::deserialize(&mut reader).unwrap();
    assert_eq!(path.tags(), &Vec::<u16>::new());
}

#[test]
fn multi_byte_tags_round_trip() {
    let source = Path::from_tags(vec![0, 1, 127, 128, 300, 65535]);
    let mut bytes = Vec::new();
    source.serialize(&mut bytes).unwrap();
    assert_eq!(source.compute_size() as usize, bytes.len());

    let mut reader = Reader::new(bytes);
    let decoded = Path::deserialize(&mut reader).unwrap();
    assert_eq!(decoded.tags(), &vec![0, 1, 127, 128, 300, 65535]);
}

#[test]
fn tag_beyond_u16_reports_overflow() {
    // 70000 does not fit a tag.
    let mut bytes = Vec::new();
    steit::varint::write_varint_u64(&mut bytes, 70000);
    let mut reader = Reader::new(bytes);
    assert!(matches!(
        Path::deserialize(&mut reader),
        Err(Error::Overflow)
    ));
}

#[test]
fn unterminated_tag_reports_truncation() {
    let mut reader = Reader::new(vec![5, 0x80]);
    assert!(matches!(
        Path::deserialize(&mut reader),
        Err(Error::Truncated)
    ));
}

#[test]
fn merge_appends_to_existing_tags() {
    let mut path = Path::from_tags(vec![1]);
    let mut reader = Reader::new(vec![2, 3]);
    path.merge(&mut reader).unwrap();
    assert_eq!(path.tags(), &vec![1, 2, 3]);
}
