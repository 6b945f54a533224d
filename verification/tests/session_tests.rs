use p2p_videochat::codec::{Message, MessageBody};
use p2p_videochat::ids::PeerId;
use p2p_videochat::session::{Session, SessionAction, PeerStatus};

fn pid(n: u64) -> PeerId {
    PeerId { w0: n, w1: 0, w2: 0, w3: 0 }
}

fn about(from: PeerId) -> Message {
    Message::new(MessageBody::AboutMe { from })
}

fn keepalive(from: PeerId) -> Message {
    Message::new(MessageBody::KeepAlive { from })
}

fn frame_msg(from: PeerId, bytes: Vec<u8>) -> Message {
    Message::new(MessageBody::VideoFrame { from, frame_data: bytes, width: 2, height: 1 })
}

fn room_full(from: PeerId, target: PeerId) -> Message {
    Message::new(MessageBody::RoomFull { from, target })
}

fn count_room_full(acts: &[SessionAction], target: PeerId) -> usize {
    acts.iter()
        .filter(|a| matches!(a, SessionAction::SendRoomFull { target: t } if *t == target))
        .count()
}

#[test]
fn room_admission_caps_at_two_parties() {
    // The room opened by peer 1: peer 2 joins first and is admitted;
    // peer 3 arrives later and is rejected with exactly 3 targeted
    // room-full replies.
    let me = pid(1);
    let p2 = pid(2);
    let p3 = pid(3);
    let mut s = Session::new(me);

    let acts = s.handle_message(about(p2));
    assert!(acts.is_empty());
    assert_eq!(s.status_of(p2), PeerStatus::Connected);

    let acts = s.handle_message(about(p3));
    assert_eq!(acts.len(), 3);
    assert_eq!(count_room_full(&acts, p3), 3);
    assert_eq!(s.status_of(p3), PeerStatus::Rejected);
    assert_eq!(s.status_of(p2), PeerStatus::Connected);

    // Seen from the second occupant's side, the same holds.
    let mut s2 = Session::new(p2);
    assert!(s2.handle_message(about(me)).is_empty());
    let acts = s2.handle_message(about(p3));
    assert_eq!(count_room_full(&acts, p3), 3);
    assert_eq!(s2.status_of(me), PeerStatus::Connected);
    assert_eq!(s2.status_of(p3), PeerStatus::Rejected);
}

#[test]
fn rejected_peer_stays_rejected() {
    let me = pid(1);
    let p2 = pid(2);
    let p3 = pid(3);
    let mut s = Session::new(me);
    s.handle_message(about(p2));
    s.handle_message(about(p3));
    assert_eq!(s.status_of(p3), PeerStatus::Rejected);

    // Any further message from the rejected peer draws one more
    // targeted reply and never re-admits it, nor delivers its frames.
    let acts = s.handle_message(about(p3));
    assert_eq!(acts.len(), 1);
    assert_eq!(count_room_full(&acts, p3), 1);
    assert_eq!(s.status_of(p3), PeerStatus::Rejected);

    let acts = s.handle_message(frame_msg(p3, vec![1, 2, 3, 4, 5, 6]));
    assert_eq!(acts.len(), 1);
    assert_eq!(count_room_full(&acts, p3), 1);
    assert_eq!(s.status_of(p3), PeerStatus::Rejected);

    let acts = s.handle_message(keepalive(p3));
    assert!(acts.is_empty());
    assert_eq!(s.status_of(p3), PeerStatus::Rejected);
}

#[test]
fn own_messages_are_ignored() {
    let me = pid(7);
    let mut s = Session::new(me);
    assert!(s.handle_message(about(me)).is_empty());
    assert!(s.handle_message(keepalive(me)).is_empty());
    assert!(s.handle_message(frame_msg(me, vec![0, 0, 0])).is_empty());
    assert!(s.handle_message(room_full(me, me)).is_empty());
    assert_eq!(s.status_of(me), PeerStatus::Unknown);
    assert_eq!(s.connected_peer(), None);
}

#[test]
fn frame_from_connected_peer_is_delivered() {
    let me = pid(1);
    let p2 = pid(2);
    let mut s = Session::new(me);
    s.handle_message(about(p2));
    let bytes = vec![9u8, 8, 7, 6, 5, 4];
    let acts = s.handle_message(frame_msg(p2, bytes.clone()));
    assert_eq!(acts.len(), 1);
    match &acts[0] {
        SessionAction::DeliverFrame { frame_data, width, height } => {
            assert_eq!(*frame_data, bytes);
            assert_eq!((*width, *height), (2, 1));
        },
        _ => panic!("expected a delivered frame"),
    }
}

#[test]
fn first_frame_admits_unknown_peer() {
    let me = pid(1);
    let p2 = pid(2);
    let mut s = Session::new(me);
    let acts = s.handle_message(frame_msg(p2, vec![1, 1, 1]));
    assert_eq!(acts.len(), 1);
    assert!(matches!(acts[0], SessionAction::DeliverFrame { .. }));
    assert_eq!(s.status_of(p2), PeerStatus::Connected);
}

#[test]
fn frame_when_room_full_rejects_with_one_reply() {
    let me = pid(1);
    let p2 = pid(2);
    let p3 = pid(3);
    let mut s = Session::new(me);
    s.handle_message(about(p2));
    let acts = s.handle_message(frame_msg(p3, vec![1, 1, 1]));
    assert_eq!(acts.len(), 1);
    assert_eq!(count_room_full(&acts, p3), 1);
    assert_eq!(s.status_of(p3), PeerStatus::Rejected);
}

#[test]
fn keepalive_admits_silently_while_there_is_room() {
    let me = pid(1);
    let p2 = pid(2);
    let p3 = pid(3);
    let mut s = Session::new(me);
    let acts = s.handle_message(keepalive(p2));
    assert!(acts.is_empty());
    assert_eq!(s.status_of(p2), PeerStatus::Connected);
    // With the room full, a keepalive from a stranger is ignored
    // outright: no reply, no state change.
    let acts = s.handle_message(keepalive(p3));
    assert!(acts.is_empty());
    assert_eq!(s.status_of(p3), PeerStatus::Unknown);
}

#[test]
fn targeted_room_full_terminates() {
    let me = pid(1);
    let other = pid(2);
    let mut s = Session::new(me);
    let acts = s.handle_message(room_full(other, me));
    assert_eq!(acts.len(), 1);
    assert!(matches!(acts[0], SessionAction::Terminate));
}

#[test]
fn room_full_for_someone_else_is_ignored() {
    let me = pid(1);
    let p2 = pid(2);
    let p3 = pid(3);
    let mut s = Session::new(me);
    let acts = s.handle_message(room_full(p2, p3));
    assert!(acts.is_empty());
    assert_eq!(s.status_of(p2), PeerStatus::Unknown);
}
