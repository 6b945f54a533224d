//! A two-party session from open to first rendered frame, carried over
//! the real wire forms.

use p2p_videochat::codec::{Message, MessageBody};
use p2p_videochat::ids::{PeerId, TopicId};
use p2p_videochat::render::TerminalDisplay;
use p2p_videochat::session::{Session, SessionAction, PeerStatus};
use p2p_videochat::ticket::{Ticket, CompactNodeInfo};

#[test]
fn two_party_session_end_to_end() {
    let a = PeerId { w0: 0xA, w1: 0, w2: 0, w3: 0 };
    let b = PeerId { w0: 0xB, w1: 0, w2: 0, w3: 0 };

    // A opens a room and shares its ticket.
    let ticket = Ticket {
        topic: TopicId { w0: 1, w1: 2, w2: 3, w3: 4 },
        nodes: vec![CompactNodeInfo {
            node_id: a,
            direct_addresses: vec![b"198.51.100.4:7777".to_vec()],
        }],
    };
    let text = ticket.to_text().unwrap();

    // B joins with the ticket and reads A's identity out of it.
    let joined = Ticket::from_text(&text).unwrap();
    assert_eq!(joined.topic, ticket.topic);
    assert_eq!(joined.nodes[0].node_id, a);

    let mut session_a = Session::new(a);
    let mut session_b = Session::new(b);

    // Both emit AboutMe; each admits the other.
    let hello_a = Message::new(MessageBody::AboutMe { from: a }).to_vec();
    let hello_b = Message::new(MessageBody::AboutMe { from: b }).to_vec();
    assert!(session_b.handle_message(Message::from_bytes(&hello_a).unwrap()).is_empty());
    assert!(session_a.handle_message(Message::from_bytes(&hello_b).unwrap()).is_empty());
    assert_eq!(session_a.status_of(b), PeerStatus::Connected);
    assert_eq!(session_b.status_of(a), PeerStatus::Connected);

    // A broadcasts one 640x480 all-black frame.
    let frame = vec![0u8; 640 * 480 * 3];
    let wire = Message::new(MessageBody::VideoFrame {
        from: a,
        frame_data: frame.clone(),
        width: 640,
        height: 480,
    })
    .to_vec();

    // B receives it, delivers it, and sizes its display from it.
    let acts = session_b.handle_message(Message::from_bytes(&wire).unwrap());
    assert_eq!(acts.len(), 1);
    match &acts[0] {
        SessionAction::DeliverFrame { frame_data, width, height } => {
            assert_eq!(frame_data.len(), frame.len());
            let mut display = TerminalDisplay::new(*width, *height, 120, 40, true);
            assert_eq!((display.cam_w, display.cam_h), (640, 480));
            let painted = display.show_frame(frame_data, 120, 40);
            assert!(painted.starts_with(b"\x1b[2J\x1b[H"));
        },
        _ => panic!("the frame should have been delivered"),
    }
}
