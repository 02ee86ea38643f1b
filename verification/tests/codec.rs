use redis_lite::resp::{decode, decode_snapshot_frame, encode, encode_snapshot_frame, DecodeResult,
    RespDataTypes};

fn bulk(s: &str) -> RespDataTypes {
    RespDataTypes::BulkString(s.as_bytes().to_vec())
}

fn roundtrip(f: RespDataTypes) {
    let bytes = encode(&f);
    match decode(bytes.as_slice()) {
        DecodeResult::Frame(g, used) => {
            assert_eq!(g, f);
            assert_eq!(used, bytes.len());
        },
        other => panic!("expected a frame, got {:?}", other),
    }
}

#[test]
fn round_trip_simple_frames() {
    roundtrip(RespDataTypes::SimpleString(b"PONG".to_vec()));
    roundtrip(RespDataTypes::SimpleString(Vec::new()));
    roundtrip(RespDataTypes::SimpleError(b"ERR oops".to_vec()));
    roundtrip(RespDataTypes::Integer(0));
    roundtrip(RespDataTypes::Integer(12345));
    roundtrip(RespDataTypes::Integer(-7));
    roundtrip(RespDataTypes::Integer(i64::MAX));
    roundtrip(RespDataTypes::Integer(i64::MIN));
    roundtrip(RespDataTypes::Null);
    roundtrip(RespDataTypes::NullArray);
}

#[test]
fn round_trip_bulk_and_arrays() {
    roundtrip(bulk("hello"));
    roundtrip(RespDataTypes::BulkString(Vec::new()));
    // bulk strings carry arbitrary bytes, CRLF included: length is
    // authoritative
    roundtrip(RespDataTypes::BulkString(b"a\r\nb\r\n".to_vec()));
    roundtrip(RespDataTypes::Array(Vec::new()));
    roundtrip(RespDataTypes::Array(vec![bulk("PING")]));
    roundtrip(RespDataTypes::Array(vec![
        bulk("SET"),
        bulk("foo"),
        bulk("bar"),
        RespDataTypes::Integer(42),
    ]));
    roundtrip(RespDataTypes::Array(vec![
        RespDataTypes::Array(vec![bulk("nested"), RespDataTypes::Null]),
        RespDataTypes::SimpleString(b"ok".to_vec()),
    ]));
}

#[test]
fn encode_matches_the_wire_grammar() {
    assert_eq!(encode(&RespDataTypes::SimpleString(b"PONG".to_vec())), b"+PONG\r\n".to_vec());
    assert_eq!(encode(&RespDataTypes::Integer(-12)), b":-12\r\n".to_vec());
    assert_eq!(encode(&bulk("bar")), b"$3\r\nbar\r\n".to_vec());
    assert_eq!(encode(&RespDataTypes::Null), b"$-1\r\n".to_vec());
    assert_eq!(encode(&RespDataTypes::NullArray), b"*-1\r\n".to_vec());
    assert_eq!(
        encode(&RespDataTypes::Array(vec![bulk("PING")])),
        b"*1\r\n$4\r\nPING\r\n".to_vec()
    );
    assert_eq!(
        encode(&RespDataTypes::Array(vec![bulk("ECHO"), bulk("hello")])),
        b"*2\r\n$4\r\nECHO\r\n$5\r\nhello\r\n".to_vec()
    );
}

#[test]
fn streaming_decode_is_incomplete_before_the_last_byte() {
    let frames = vec![
        RespDataTypes::SimpleString(b"OK".to_vec()),
        RespDataTypes::Integer(-123),
        bulk("with\r\ninside"),
        RespDataTypes::Null,
        RespDataTypes::Array(vec![bulk("SET"), bulk("k"), bulk("v")]),
        RespDataTypes::Array(vec![RespDataTypes::Array(vec![bulk("x")]), bulk("y")]),
    ];
    for f in frames {
        let bytes = encode(&f);
        for cut in 0..bytes.len() {
            match decode(&bytes[..cut]) {
                DecodeResult::Incomplete => {},
                other => panic!("cut {} of {:?}: {:?}", cut, bytes, other),
            }
        }
        match decode(bytes.as_slice()) {
            DecodeResult::Frame(g, used) => {
                assert_eq!(g, f);
                assert_eq!(used, bytes.len());
            },
            other => panic!("{:?}", other),
        }
    }
}

#[test]
fn decode_consumes_exactly_one_frame() {
    let mut bytes = encode(&RespDataTypes::SimpleString(b"PONG".to_vec()));
    let first = bytes.len();
    bytes.extend_from_slice(b":17\r\ntrailing-garbage");
    match decode(bytes.as_slice()) {
        DecodeResult::Frame(g, used) => {
            assert_eq!(g, RespDataTypes::SimpleString(b"PONG".to_vec()));
            assert_eq!(used, first);
        },
        other => panic!("{:?}", other),
    }
    match decode(&bytes[first..]) {
        DecodeResult::Frame(g, used) => {
            assert_eq!(g, RespDataTypes::Integer(17));
            assert_eq!(used, 5);
        },
        other => panic!("{:?}", other),
    }
}

#[test]
fn malformed_inputs_are_rejected() {
    assert_eq!(decode(b"?x\r\n"), DecodeResult::Malformed);
    assert_eq!(decode(b":12a\r\n"), DecodeResult::Malformed);
    assert_eq!(decode(b":\r\n"), DecodeResult::Malformed);
    assert_eq!(decode(b"$x\r\n"), DecodeResult::Malformed);
    assert_eq!(decode(b"$-2\r\n"), DecodeResult::Malformed);
    assert_eq!(decode(b"$3\r\nabcXY"), DecodeResult::Malformed);
    assert_eq!(decode(b"*-3\r\n"), DecodeResult::Malformed);
    // a huge integer line overflows the signed 64-bit range
    assert_eq!(decode(b":99999999999999999999999\r\n"), DecodeResult::Malformed);
}

#[test]
fn incomplete_inputs_wait_for_more() {
    assert_eq!(decode(b""), DecodeResult::Incomplete);
    assert_eq!(decode(b"+PON"), DecodeResult::Incomplete);
    assert_eq!(decode(b"$5\r\nab"), DecodeResult::Incomplete);
    assert_eq!(decode(b"$5\r\nabcde"), DecodeResult::Incomplete);
    assert_eq!(decode(b"$5\r\nabcde\r"), DecodeResult::Incomplete);
    assert_eq!(decode(b"*2\r\n$1\r\na\r\n"), DecodeResult::Incomplete);
}

#[test]
fn line_count_of_frames() {
    assert_eq!(RespDataTypes::len(&RespDataTypes::SimpleString(b"x".to_vec())), 1);
    assert_eq!(RespDataTypes::len(&RespDataTypes::Integer(5)), 1);
    assert_eq!(RespDataTypes::len(&bulk("x")), 2);
    assert_eq!(RespDataTypes::len(&RespDataTypes::Array(vec![bulk("a"), bulk("b")])), 3);
}

#[test]
fn snapshot_frame_has_no_trailing_crlf() {
    let payload = b"REDIS0011fake".to_vec();
    let framed = encode_snapshot_frame(payload.as_slice());
    assert_eq!(framed, b"$13\r\nREDIS0011fake".to_vec());
    match decode_snapshot_frame(framed.as_slice()) {
        DecodeResult::Frame(RespDataTypes::BulkString(b), used) => {
            assert_eq!(b, payload);
            assert_eq!(used, framed.len());
        },
        other => panic!("{:?}", other),
    }
    assert_eq!(decode_snapshot_frame(b"$13\r\nREDIS"), DecodeResult::Incomplete);
}
