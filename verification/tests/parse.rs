use ncd_classifier::store::{parse_line, parse_u8, split_lines};

#[test]
fn parse_u8_accepts_plain_and_signed_digits() {
    assert_eq!(parse_u8(&b"12".to_vec()), Some(12));
    assert_eq!(parse_u8(&b"0".to_vec()), Some(0));
    assert_eq!(parse_u8(&b"+3".to_vec()), Some(3));
    assert_eq!(parse_u8(&b"255".to_vec()), Some(255));
    assert_eq!(parse_u8(&b"0255".to_vec()), Some(255));
}

#[test]
fn parse_u8_rejects_junk_and_overflow() {
    assert_eq!(parse_u8(&b"".to_vec()), None);
    assert_eq!(parse_u8(&b"+".to_vec()), None);
    assert_eq!(parse_u8(&b"XYZ".to_vec()), None);
    assert_eq!(parse_u8(&b"1x".to_vec()), None);
    assert_eq!(parse_u8(&b"256".to_vec()), None);
    assert_eq!(parse_u8(&b"-1".to_vec()), None);
    assert_eq!(parse_u8(&b"99999999999".to_vec()), None);
    assert_eq!(parse_u8(&b" 7".to_vec()), None);
}

#[test]
fn parse_line_splits_at_first_comma() {
    let r = parse_line(&b"2,hello, world".to_vec());
    assert_eq!(r, Some((2, b"hello, world".to_vec())));
}

#[test]
fn parse_line_rejects_missing_comma_and_bad_label() {
    assert_eq!(parse_line(&b"no separator here".to_vec()), None);
    assert_eq!(parse_line(&b"".to_vec()), None);
    assert_eq!(parse_line(&b"XYZ,bad text".to_vec()), None);
}

#[test]
fn split_lines_handles_terminators() {
    let as_vecs = |v: Vec<&[u8]>| -> Vec<Vec<u8>> { v.into_iter().map(|s| s.to_vec()).collect() };
    assert_eq!(split_lines(&b"a\nb".to_vec()), as_vecs(vec![b"a", b"b"]));
    assert_eq!(split_lines(&b"a\nb\n".to_vec()), as_vecs(vec![b"a", b"b"]));
    assert_eq!(split_lines(&b"a\n\nb".to_vec()), as_vecs(vec![b"a" as &[u8], b"", b"b"]));
    assert_eq!(split_lines(&b"\n".to_vec()), vec![Vec::<u8>::new()]);
    assert_eq!(split_lines(&b"".to_vec()), Vec::<Vec<u8>>::new());
}
