use p2p_videochat::codec::{Message, MessageBody, MessageError};
use p2p_videochat::ids::PeerId;

fn pid(a: u64, b: u64, c: u64, d: u64) -> PeerId {
    PeerId { w0: a, w1: b, w2: c, w3: d }
}

fn body_from(m: &Message) -> PeerId {
    match &m.body {
        MessageBody::AboutMe { from } => *from,
        MessageBody::VideoFrame { from, .. } => *from,
        MessageBody::RoomFull { from, .. } => *from,
        MessageBody::KeepAlive { from } => *from,
    }
}

#[test]
fn new_draws_a_sixteen_byte_nonce() {
    let m = Message::new(MessageBody::AboutMe { from: pid(1, 2, 3, 4) });
    assert_eq!(m.nonce.len(), 16);
    assert_eq!(body_from(&m), pid(1, 2, 3, 4));
}

#[test]
fn about_me_round_trips() {
    let m = Message::new(MessageBody::AboutMe { from: pid(1, 2, 3, 4) });
    let bytes = m.to_vec();
    let back = Message::from_bytes(&bytes).unwrap();
    assert!(matches!(back.body, MessageBody::AboutMe { from } if from == pid(1, 2, 3, 4)));
    assert_eq!(back.nonce, m.nonce);
}

#[test]
fn video_frame_round_trips() {
    let frame: Vec<u8> = (0u8..60).collect();
    let m = Message::new(MessageBody::VideoFrame {
        from: pid(5, 6, 7, 8),
        frame_data: frame.clone(),
        width: 640,
        height: 480,
    });
    let back = Message::from_bytes(&m.to_vec()).unwrap();
    match back.body {
        MessageBody::VideoFrame { from, frame_data, width, height } => {
            assert_eq!(from, pid(5, 6, 7, 8));
            assert_eq!(frame_data, frame);
            assert_eq!((width, height), (640, 480));
        },
        _ => panic!("wrong variant after round trip"),
    }
}

#[test]
fn room_full_round_trips() {
    let m = Message::new(MessageBody::RoomFull { from: pid(1, 0, 0, 0), target: pid(9, 9, 9, 9) });
    let back = Message::from_bytes(&m.to_vec()).unwrap();
    assert!(matches!(
        back.body,
        MessageBody::RoomFull { from, target }
            if from == pid(1, 0, 0, 0) && target == pid(9, 9, 9, 9)
    ));
}

#[test]
fn keep_alive_round_trips() {
    let m = Message::new(MessageBody::KeepAlive { from: pid(0, 0, 0, 1) });
    let back = Message::from_bytes(&m.to_vec()).unwrap();
    assert!(matches!(back.body, MessageBody::KeepAlive { from } if from == pid(0, 0, 0, 1)));
}

#[test]
fn exact_wire_bytes_of_about_me() {
    let m = Message { body: MessageBody::AboutMe { from: pid(1, 2, 3, 4) }, nonce: vec![0xAA; 16] };
    let bytes = m.to_vec();
    let mut expected = vec![1u8];
    for w in [1u64, 2, 3, 4] {
        expected.extend_from_slice(&w.to_be_bytes());
    }
    expected.extend_from_slice(&[0xAA; 16]);
    assert_eq!(bytes, expected);
}

#[test]
fn empty_input_is_malformed() {
    assert!(matches!(Message::from_bytes(&[]), Err(MessageError::Malformed)));
}

#[test]
fn unknown_tag_is_malformed() {
    let mut bytes = vec![9u8];
    bytes.extend_from_slice(&[0u8; 48]);
    assert!(matches!(Message::from_bytes(&bytes), Err(MessageError::Malformed)));
}

#[test]
fn truncated_message_is_malformed() {
    let m = Message::new(MessageBody::AboutMe { from: pid(1, 2, 3, 4) });
    let bytes = m.to_vec();
    assert!(matches!(
        Message::from_bytes(&bytes[..bytes.len() - 1]),
        Err(MessageError::Malformed)
    ));
}

#[test]
fn trailing_bytes_are_malformed() {
    let m = Message::new(MessageBody::KeepAlive { from: pid(1, 2, 3, 4) });
    let mut bytes = m.to_vec();
    bytes.push(0);
    assert!(matches!(Message::from_bytes(&bytes), Err(MessageError::Malformed)));
}

#[test]
fn frame_length_must_match() {
    // A video frame whose length prefix overstates the payload.
    let frame: Vec<u8> = vec![1, 2, 3];
    let m = Message::new(MessageBody::VideoFrame {
        from: pid(1, 1, 1, 1),
        frame_data: frame,
        width: 1,
        height: 1,
    });
    let mut bytes = m.to_vec();
    // The length prefix sits after the tag and the 32-byte sender, as
    // eight big-endian bytes; bump its low byte.
    bytes[1 + 32 + 4 + 4 + 7] += 1;
    assert!(matches!(Message::from_bytes(&bytes), Err(MessageError::Malformed)));
}
