use quorum_mutex::message::{get_msgs, IdShape, Message, MessageType, NodeId, WireError};

fn all_types() -> Vec<MessageType> {
    vec![
        MessageType::Request,
        MessageType::Reply,
        MessageType::Release,
        MessageType::Failed,
        MessageType::Inquire,
        MessageType::Yield,
        MessageType::Terminate,
    ]
}

#[test]
fn encode_grid_layout() {
    let m = Message::new_maekawa((1, 2), MessageType::Request, 5);
    let b = m.encode();
    assert_eq!(b.len(), 33);
    let mut want = vec![0u8; 33];
    want[0] = 1;
    want[8] = 2;
    want[16] = 1;
    want[17] = 5;
    assert_eq!(b, want);
}

#[test]
fn encode_flat_layout_little_endian() {
    let m = Message::new_rc(0x0102, MessageType::Terminate, 0x0304_0000);
    let b = m.encode();
    assert_eq!(&b[0..2], &[0x02, 0x01]);
    assert!(b[2..16].iter().all(|&x| x == 0));
    assert_eq!(b[16], 7);
    assert_eq!(&b[17..21], &[0x00, 0x00, 0x04, 0x03]);
    assert!(b[21..33].iter().all(|&x| x == 0));
}

#[test]
fn type_codes() {
    for (i, t) in all_types().into_iter().enumerate() {
        assert_eq!(t.code(), i as u8 + 1);
        assert_eq!(MessageType::from_code(i as u8 + 1), Some(t));
    }
    assert_eq!(MessageType::from_code(0), None);
    assert_eq!(MessageType::from_code(8), None);
}

#[test]
fn decode_encode_round_trip_all_kinds() {
    let ids = [
        NodeId::Grid(0, 0),
        NodeId::Grid(3, 7),
        NodeId::Grid(u64::MAX, 1),
        NodeId::Flat(0),
        NodeId::Flat(42),
        NodeId::Flat(u128::MAX),
    ];
    let stamps = [0u128, 1, 255, 256, u64::MAX as u128 + 1, u128::MAX];
    for id in ids {
        for t in all_types() {
            for ts in stamps {
                let m = Message { id, typ: t, ts };
                let shape = match id {
                    NodeId::Grid(_, _) => IdShape::Grid,
                    NodeId::Flat(_) => IdShape::Flat,
                };
                assert_eq!(Message::decode(&m.encode(), shape), Ok(m));
            }
        }
    }
}

#[test]
fn encode_decode_round_trip_bytes() {
    let mut b: Vec<u8> = (0..33u8).map(|x| x.wrapping_mul(37)).collect();
    b[16] = 6;
    for shape in [IdShape::Grid, IdShape::Flat] {
        let m = Message::decode(&b, shape).unwrap();
        assert_eq!(m.encode(), b);
    }
}

#[test]
fn decode_errors() {
    assert_eq!(Message::decode(&[0u8; 32], IdShape::Grid), Err(WireError::Length(32)));
    assert_eq!(Message::decode(&[], IdShape::Flat), Err(WireError::Length(0)));
    let mut b = vec![0u8; 33];
    b[16] = 9;
    assert_eq!(Message::decode(&b, IdShape::Grid), Err(WireError::UnknownType(9)));
    b[16] = 0;
    assert_eq!(Message::decode(&b, IdShape::Grid), Err(WireError::UnknownType(0)));
}

#[test]
fn get_msgs_splits_records() {
    let a = Message::new_maekawa((0, 1), MessageType::Reply, 9);
    let b = Message::new_maekawa((1, 0), MessageType::Inquire, 10);
    let mut buf = a.encode();
    buf.extend(b.encode());
    assert_eq!(get_msgs(&buf, IdShape::Grid), Ok(vec![a, b]));
    assert_eq!(get_msgs(&[], IdShape::Grid), Ok(vec![]));
}

#[test]
fn get_msgs_rejects_partial_record() {
    let a = Message::new_rc(3, MessageType::Reply, 9);
    let mut buf = a.encode();
    buf.push(0);
    assert_eq!(get_msgs(&buf, IdShape::Flat), Err(WireError::Length(34)));
}

#[test]
fn get_msgs_rejects_bad_kind() {
    let a = Message::new_rc(3, MessageType::Reply, 9);
    let mut buf = a.encode();
    let mut bad = a.encode();
    bad[16] = 200;
    buf.extend(bad);
    assert_eq!(get_msgs(&buf, IdShape::Flat), Err(WireError::UnknownType(200)));
}

#[test]
fn flip_between_forms() {
    let mut m = Message::new_maekawa((1, 2), MessageType::Reply, 4);
    m.flip();
    assert_eq!(m.id, NodeId::Flat(1 + (2u128 << 64)));
    assert_eq!(m.ts, 4);
    m.flip();
    assert_eq!(m.id, NodeId::Grid(1, 2));
    let mut r = Message::new_rc(7, MessageType::Request, 1);
    let before = r.encode();
    r.flip();
    assert_eq!(r.id, NodeId::Grid(7, 0));
    assert_eq!(r.encode(), before);
}
