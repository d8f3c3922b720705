use wsproto::frame::{Frame, OpCode};
use wsproto::wscodec::{ErrorKind, WsCodec};

#[test]
fn test() {
    let bytes: [u8; 6] = [0x01, 0x01, 0x01, 0x00, 0x00, 0x00];

    let mut codec = WsCodec::new();
    let mut bytes: Vec<u8> = bytes.to_vec();
    if let Ok(Some(v)) = codec.decode(&mut bytes) {
        assert_eq!(v.fin, false);
        assert_eq!(v.rsv1, false);
        assert_eq!(v.rsv2, false);
        assert_eq!(v.rsv2, false);
        assert_eq!(v.opcode, OpCode::Text);
        assert_eq!(v.mask, None);
        assert_eq!(v.payload, vec![0x01u8]);
    } else {
        assert!(false);
    }
    assert_eq!(bytes.len(), 3);
}

// A minimal unmasked text frame: decoded whole, nothing remains.
#[test]
fn test_minimal_text_frame() {
    let mut codec = WsCodec::new();
    let mut buf: Vec<u8> = vec![0x01, 0x01, 0x01];
    let f = codec.decode(&mut buf).unwrap().unwrap();
    assert!(!f.fin && !f.rsv1 && !f.rsv2 && !f.rsv3);
    assert_eq!(f.opcode, OpCode::Text);
    assert_eq!(f.mask, None);
    assert_eq!(f.payload, vec![0x01u8]);
    assert_eq!(buf.len(), 0);
}

#[test]
fn test_not_ready() {
    let mut codec = WsCodec::new();
    if let Ok(v) = codec.decode(&mut vec![0x01u8]) {
        assert!(v.is_none())
    } else {
        assert!(false);
    }
    if let Ok(v) = codec.decode(&mut vec![0x01u8, 0x01]) {
        assert!(v.is_none())
    } else {
        assert!(false);
    }
}

// Feeding a frame in three reads: the first two leave the buffer
// untouched, the third yields the frame and leaves the trailing bytes.
#[test]
fn test_streaming_chunks() {
    let mut codec = WsCodec::new();
    let mut buf: Vec<u8> = vec![0x01];
    assert!(matches!(codec.decode(&mut buf), Ok(None)));
    assert_eq!(buf, vec![0x01]);
    buf.push(0x01);
    assert!(matches!(codec.decode(&mut buf), Ok(None)));
    assert_eq!(buf, vec![0x01, 0x01]);
    buf.extend_from_slice(&[0x00, 0x00, 0x00]);
    let f = codec.decode(&mut buf).unwrap().unwrap();
    assert_eq!(f.opcode, OpCode::Text);
    assert_eq!(f.payload, vec![0x00u8]);
    assert_eq!(buf, vec![0x00, 0x00]);
}

// A ping with an empty payload decodes, and its pong reply encodes as
// the two bytes 8A 00.
#[test]
fn test_ping_pong_bytes() {
    let mut codec = WsCodec::new();
    let mut buf: Vec<u8> = vec![0x89, 0x00];
    let f = codec.decode(&mut buf).unwrap().unwrap();
    assert!(f.fin);
    assert_eq!(f.opcode, OpCode::Ping);
    assert_eq!(f.mask, None);
    assert!(f.payload.is_empty());
    assert!(buf.is_empty());

    let mut out: Vec<u8> = Vec::new();
    codec.encode(Frame::pong(), &mut out).unwrap();
    assert_eq!(out, vec![0x8A, 0x00]);
}

// A declared 64-bit length with its top bit set is over the cap: a
// protocol error that consumes nothing.
#[test]
fn test_length_cap_rejected() {
    let mut codec = WsCodec::new();
    let mut buf: Vec<u8> = vec![0xff, 0x7f, 0xff, 0xff, 0xff, 0xff, 0xff, 0xff, 0xff, 0xff];
    let before = buf.clone();
    match codec.decode(&mut buf) {
        Err(e) => {
            assert_eq!(e.kind, ErrorKind::Protocol);
            assert!(e.details.contains("exceeding defined max"));
        },
        other => panic!("expected a protocol error, got {:?}", other),
    }
    assert_eq!(buf, before);
}

// Just over the cap errs; exactly the cap is only incomplete.
#[test]
fn test_length_cap_boundary() {
    let mut codec = WsCodec::new();
    // 5 GiB + 1 = 0x140000001, declared via the 64-bit length.
    let mut over: Vec<u8> = vec![0x82, 0x7f, 0, 0, 0, 0x01, 0x40, 0x00, 0x00, 0x01];
    assert!(codec.decode(&mut over).is_err());
    let mut at: Vec<u8> = vec![0x82, 0x7f, 0, 0, 0, 0x01, 0x40, 0x00, 0x00, 0x00];
    assert!(matches!(codec.decode(&mut at), Ok(None)));
}

// Encode then decode restores the frame exactly, for each of the three
// length encodings, masked and unmasked.
#[test]
fn test_encode_decode_roundtrip() {
    let mut codec = WsCodec::new();
    let cases: Vec<Frame> = vec![
        Frame {
            fin: true,
            rsv1: false,
            rsv2: true,
            rsv3: false,
            opcode: OpCode::Binary,
            mask: None,
            payload: vec![1, 2, 3],
        },
        Frame {
            fin: false,
            rsv1: true,
            rsv2: false,
            rsv3: true,
            opcode: OpCode::Text,
            mask: Some([9, 8, 7, 6]),
            payload: vec![0xAA; 300],
        },
        Frame {
            fin: true,
            rsv1: false,
            rsv2: false,
            rsv3: false,
            opcode: OpCode::Bad(7),
            mask: Some([0, 0, 0, 1]),
            payload: vec![0x55; 70000],
        },
    ];
    for f in cases {
        let mut wire: Vec<u8> = Vec::new();
        codec.encode(f.clone(), &mut wire).unwrap();
        let decoded = codec.decode(&mut wire).unwrap().unwrap();
        assert!(wire.is_empty());
        assert_eq!(decoded.fin, f.fin);
        assert_eq!(decoded.rsv1, f.rsv1);
        assert_eq!(decoded.rsv2, f.rsv2);
        assert_eq!(decoded.rsv3, f.rsv3);
        assert_eq!(decoded.opcode, f.opcode);
        assert_eq!(decoded.mask, f.mask);
        assert_eq!(decoded.payload, f.payload);
    }
}

// A 16-bit extended length need not be the shortest encoding: 126 with
// a small value is still accepted.
#[test]
fn test_non_minimal_length_accepted() {
    let mut codec = WsCodec::new();
    let mut buf: Vec<u8> = vec![0x81, 126, 0x00, 0x05, b'h', b'e', b'l', b'l', b'o'];
    let f = codec.decode(&mut buf).unwrap().unwrap();
    assert_eq!(f.payload, b"hello".to_vec());
    assert!(buf.is_empty());
}

// The masking key on the wire is recorded, not applied.
#[test]
fn test_decode_records_mask() {
    let mut codec = WsCodec::new();
    let mut buf: Vec<u8> = vec![0x81, 0x84, 0xaa, 0xbb, 0xcc, 0xdd, 0xcb, 0xde, 0xbf, 0xb1];
    let f = codec.decode(&mut buf).unwrap().unwrap();
    assert_eq!(f.mask, Some([0xaa, 0xbb, 0xcc, 0xdd]));
    assert_eq!(f.payload, vec![0xcb, 0xde, 0xbf, 0xb1]);
    assert!(buf.is_empty());
}
