use bytes::BytesMut;
use resp_store::{BulkString, NullBulkString, RespBulkString, RespError, RespFrame};

#[test]
fn test_bulk_string_encode() {
    let frame: RespFrame = RespBulkString::new(b"hello".to_vec()).into();
    assert_eq!(frame.encode(), b"$5\r\nhello\r\n");
}

#[test]
fn test_null_bulk_string_encode() {
    let frame: RespFrame = RespBulkString::new(Vec::new()).into();
    assert_eq!(frame.encode(), b"$-1\r\n");
}

#[test]
fn test_bulk_string_decode() {
    let mut buf = BytesMut::new();
    buf.extend_from_slice(b"$5\r\nhello\r\n");

    let frame = BulkString::decode(&mut buf).unwrap();
    assert_eq!(frame, BulkString::new(b"hello".to_vec()));

    buf.extend_from_slice(b"$5\r\nhello");
    let ret = BulkString::decode(&mut buf);
    assert_eq!(ret.unwrap_err(), RespError::NotComplete);

    buf.extend_from_slice(b"\r\n");
    let frame = BulkString::decode(&mut buf).unwrap();
    assert_eq!(frame, BulkString::new(b"hello".to_vec()));
}

#[test]
fn test_null_bulk_string_decode() {
    let mut buf = BytesMut::new();
    buf.extend_from_slice(b"$-1\r\n");

    let frame = NullBulkString::decode(&mut buf).unwrap();
    assert_eq!(frame, NullBulkString);
}

#[test]
fn integer_encode_decode() {
    let frame = RespFrame::Integer(-42);
    let bytes = frame.encode();
    assert_eq!(bytes, b":-42\r\n".to_vec());
    let mut buf = BytesMut::new();
    buf.extend_from_slice(&bytes);
    assert_eq!(RespFrame::decode(&mut buf).unwrap(), RespFrame::Integer(-42));
    assert_eq!(buf.len(), 0);
}

#[test]
fn array_round_trip_consumes_exactly() {
    let frame = RespFrame::Array(vec![
        RespFrame::Integer(7),
        RespFrame::BulkString(BulkString::new(b"ab\r\ncd".to_vec())),
        RespFrame::NullBulkString(NullBulkString),
        RespFrame::Array(vec![RespFrame::Integer(-1)]),
    ]);
    let mut bytes = frame.clone().encode();
    let n = bytes.len();
    bytes.extend_from_slice(b"trailing");
    let mut buf = BytesMut::new();
    buf.extend_from_slice(&bytes);
    let decoded = RespFrame::decode(&mut buf).unwrap();
    assert_eq!(decoded, frame);
    assert_eq!(buf.len(), bytes.len() - n);
    assert_eq!(&buf[..], b"trailing");
}

#[test]
fn incremental_delivery_byte_by_byte() {
    let frame = RespFrame::Array(vec![
        RespFrame::BulkString(BulkString::new(b"hi".to_vec())),
        RespFrame::Integer(10),
    ]);
    let bytes = frame.clone().encode();
    for k in 0..bytes.len() {
        let mut buf = BytesMut::new();
        buf.extend_from_slice(&bytes[..k]);
        assert_eq!(RespFrame::decode(&mut buf).unwrap_err(), RespError::NotComplete);
        assert_eq!(&buf[..], &bytes[..k], "nothing is consumed on not-complete");
    }
    let mut buf = BytesMut::new();
    buf.extend_from_slice(&bytes);
    assert_eq!(RespFrame::decode(&mut buf).unwrap(), frame);
    assert_eq!(buf.len(), 0);
}

#[test]
fn malformed_frames_are_rejected() {
    let mut buf = BytesMut::new();
    buf.extend_from_slice(b"?what\r\n");
    assert_eq!(RespFrame::decode(&mut buf).unwrap_err(), RespError::InvalidFrame);

    let mut buf = BytesMut::new();
    buf.extend_from_slice(b"$5x\r\nhello\r\n");
    assert_eq!(RespFrame::decode(&mut buf).unwrap_err(), RespError::InvalidFrame);

    let mut buf = BytesMut::new();
    buf.extend_from_slice(b"$-2\r\n");
    assert_eq!(RespFrame::decode(&mut buf).unwrap_err(), RespError::InvalidFrame);
}

#[test]
fn expect_length_reports_totals() {
    assert_eq!(RespFrame::expect_length(b":123\r\n"), Ok(6));
    assert_eq!(RespFrame::expect_length(b":123\r"), Err(RespError::NotComplete));
    assert_eq!(BulkString::expect_length(b"$5\r\nhe"), Ok(11));
    assert_eq!(BulkString::expect_length(b"$5x\r\n"), Err(RespError::InvalidFrame));
    assert_eq!(NullBulkString::expect_length(b""), Ok(5));
    let arr = RespFrame::Array(vec![RespFrame::Integer(1), RespFrame::Integer(2)]);
    let bytes = arr.encode();
    assert_eq!(RespFrame::expect_length(&bytes), Ok(bytes.len()));
}

#[test]
fn null_array_encode_decode() {
    let frame = RespFrame::NullArray(resp_store::RespNullArray);
    assert_eq!(frame.encode(), b"*-1\r\n");
    let mut buf = BytesMut::new();
    buf.extend_from_slice(b"*-1\r\nrest");
    assert_eq!(
        RespFrame::decode(&mut buf).unwrap(),
        RespFrame::NullArray(resp_store::RespNullArray)
    );
    assert_eq!(&buf[..], b"rest");
}
