use pipegen::bytes::{BytesError, FromBytes, IntoBytes};

#[test]
fn u32_round_trip_big_endian() {
    let bytes = 258u32.into_bytes().unwrap();
    assert_eq!(bytes, vec![0, 0, 1, 2]);
    assert_eq!(u32::from_bytes(bytes).unwrap(), 258);
}

#[test]
fn u32_reads_first_four_bytes() {
    assert_eq!(u32::from_bytes(vec![1, 0, 0, 0, 9, 9]).unwrap(), 16777216);
}

#[test]
fn u32_short_input_is_eof() {
    assert_eq!(u32::from_bytes(vec![1, 2, 3]), Err(BytesError::UnexpectedEof));
}

#[test]
fn i32_negative_is_twos_complement() {
    let bytes = (-1i32).into_bytes().unwrap();
    assert_eq!(bytes, vec![255, 255, 255, 255]);
    assert_eq!(i32::from_bytes(bytes).unwrap(), -1);
    assert_eq!(i32::from_bytes(vec![128, 0, 0, 0]).unwrap(), i32::MIN);
}

#[test]
fn u64_round_trip_big_endian() {
    let bytes = 0x0102030405060708u64.into_bytes().unwrap();
    assert_eq!(bytes, vec![1, 2, 3, 4, 5, 6, 7, 8]);
    assert_eq!(u64::from_bytes(bytes).unwrap(), 0x0102030405060708);
    assert_eq!(u64::from_bytes(vec![0; 7]), Err(BytesError::UnexpectedEof));
}

#[test]
fn i64_round_trip() {
    let bytes = (-2i64).into_bytes().unwrap();
    assert_eq!(bytes, vec![255, 255, 255, 255, 255, 255, 255, 254]);
    assert_eq!(i64::from_bytes(bytes).unwrap(), -2);
    assert_eq!(i64::from_bytes(vec![1, 2]), Err(BytesError::UnexpectedEof));
}

#[test]
fn text_round_trip() {
    let s = String::from("héllo");
    let bytes = IntoBytes::into_bytes(&s).unwrap();
    assert_eq!(bytes, "héllo".as_bytes().to_vec());
    assert_eq!(String::from_bytes(bytes).unwrap(), "héllo");
}

#[test]
fn text_invalid_utf8() {
    assert_eq!(String::from_bytes(vec![0xff, 0x41]), Err(BytesError::InvalidUtf8));
}
