use wsproto::frame::{Frame, OpCode};

#[test]
fn test_opcode_eq() {
    assert_eq!(OpCode::Pong, OpCode::Pong);
    assert_ne!(OpCode::Ping, OpCode::Pong);
}

// Every byte survives the round trip through an opcode.
#[test]
fn test_opcode_roundtrip_all() {
    for v in 0..=255u8 {
        let op = OpCode::from(v);
        let back: u8 = u8::from(op);
        assert_eq!(back, v);
    }
    assert_eq!(OpCode::from(0), OpCode::Continue);
    assert_eq!(OpCode::from(1), OpCode::Text);
    assert_eq!(OpCode::from(2), OpCode::Binary);
    assert_eq!(OpCode::from(8), OpCode::Close);
    assert_eq!(OpCode::from(9), OpCode::Ping);
    assert_eq!(OpCode::from(10), OpCode::Pong);
    assert_eq!(OpCode::from(3), OpCode::Bad(3));
}

// Unmasking the masked wire payload of scenario `81 84 aa bb cc dd cb
// de bf b1` yields the ASCII plaintext "aesl".
#[test]
fn test_apply_mask_plaintext() {
    let mut f = Frame {
        fin: true,
        rsv1: false,
        rsv2: false,
        rsv3: false,
        opcode: OpCode::Text,
        mask: Some([0xaa, 0xbb, 0xcc, 0xdd]),
        payload: vec![0xcb, 0xde, 0xbf, 0xb1],
    };
    assert!(f.apply_mask());
    assert_eq!(f.payload, vec![0x61, 0x65, 0x73, 0x6c]);
    assert_eq!(f.payload, b"aesl".to_vec());
}

// Masking twice restores the original payload, and the key survives.
#[test]
fn test_apply_mask_involution() {
    let original: Vec<u8> = (0u8..=50).collect();
    let mut f = Frame {
        fin: true,
        rsv1: false,
        rsv2: false,
        rsv3: false,
        opcode: OpCode::Binary,
        mask: Some([0x12, 0x34, 0x56, 0x78]),
        payload: original.clone(),
    };
    assert!(f.apply_mask());
    assert_ne!(f.payload, original);
    assert!(f.apply_mask());
    assert_eq!(f.payload, original);
    assert_eq!(f.mask, Some([0x12, 0x34, 0x56, 0x78]));
}

// Without a key, applying the mask is a no-op reporting false.
#[test]
fn test_apply_mask_none() {
    let mut f = Frame {
        fin: true,
        rsv1: false,
        rsv2: false,
        rsv3: false,
        opcode: OpCode::Text,
        mask: None,
        payload: vec![1, 2, 3],
    };
    assert!(!f.apply_mask());
    assert_eq!(f.payload, vec![1, 2, 3]);
}

#[test]
fn test_constructors() {
    let p = Frame::pong();
    assert!(p.fin);
    assert_eq!(p.opcode, OpCode::Pong);
    assert_eq!(p.mask, None);
    assert!(p.payload.is_empty());

    let p2 = Frame::pong_bytes_mut(vec![7, 8]);
    assert_eq!(p2.opcode, OpCode::Pong);
    assert_eq!(p2.payload, vec![7, 8]);

    let pi = Frame::ping();
    assert_eq!(pi.opcode, OpCode::Ping);
    assert!(pi.payload.is_empty());

    let t = Frame::text("hi");
    assert_eq!(t.opcode, OpCode::Text);
    assert_eq!(t.mask, None);
    assert_eq!(t.payload, b"hi".to_vec());

    let t2 = Frame::text_bytes_mut(vec![b'x']);
    assert_eq!(t2.opcode, OpCode::Text);
    assert_eq!(t2.payload, vec![b'x']);

    let d = Frame::default();
    assert!(d.fin);
    assert!(!d.rsv1 && !d.rsv2 && !d.rsv3);
    assert_eq!(d.opcode, OpCode::Bad(11));
    assert_eq!(d.mask, None);
    assert!(d.payload.is_empty());
}
