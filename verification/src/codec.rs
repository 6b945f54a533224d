//! Protocol messages and their wire form.
//!
//! An envelope carries one message body and a 16-byte nonce.  The nonce is
//! drawn fresh per message and is not validated by any receiver; it is
//! reserved for future replay protection.

use vstd::prelude::*;
use crate::ids::{PeerId, enc_peer, dec_peer, lemma_dec_peer_enc, push_peer, parse_peer};
use crate::wire::{
    be32, be64, dec_u32, dec_u64, dec_bytes, lemma_dec_u32_at, lemma_dec_u64_at,
    lemma_dec_bytes_at, lemma_dec_bytes_none, push_be32, push_be64, parse_u32, parse_u64,
    parse_bytes, push_bytes, seq_assoc, seq_empty_left,
};

verus! {

broadcast use {crate::wire::lemma_be16_len, crate::wire::lemma_be32_len, crate::wire::lemma_be64_len};

/// Number of nonce bytes carried by every envelope.
pub const NONCE_LEN: usize = 16;

/// The closed set of protocol message bodies.
pub enum MessageBody {
    /// A peer announces itself on the topic.
    AboutMe { from: PeerId },
    /// One video frame from a peer.
    VideoFrame { from: PeerId, frame_data: Vec<u8>, width: u32, height: u32 },
    /// The sender tells `target` that the room is already occupied.
    RoomFull { from: PeerId, target: PeerId },
    /// Liveness signal.
    KeepAlive { from: PeerId },
}

/// Mathematical form of a message body: frame bytes as a sequence.
pub enum BodyView {
    AboutMe { from: PeerId },
    VideoFrame { from: PeerId, frame_data: Seq<u8>, width: u32, height: u32 },
    RoomFull { from: PeerId, target: PeerId },
    KeepAlive { from: PeerId },
}

impl View for MessageBody {
    type V = BodyView;

    open spec fn view(&self) -> BodyView {
        match self {
            MessageBody::AboutMe { from } => BodyView::AboutMe { from: *from },
            MessageBody::VideoFrame { from, frame_data, width, height } => BodyView::VideoFrame {
                from: *from,
                frame_data: frame_data@,
                width: *width,
                height: *height,
            },
            MessageBody::RoomFull { from, target } => BodyView::RoomFull {
                from: *from,
                target: *target,
            },
            MessageBody::KeepAlive { from } => BodyView::KeepAlive { from: *from },
        }
    }
}

/// The peer a body claims to come from.
pub open spec fn body_from(b: BodyView) -> PeerId {
    match b {
        BodyView::AboutMe { from } => from,
        BodyView::VideoFrame { from, .. } => from,
        BodyView::RoomFull { from, .. } => from,
        BodyView::KeepAlive { from } => from,
    }
}

/// One envelope as carried on the wire: a body plus a fresh nonce.
pub struct Message {
    pub body: MessageBody,
    pub nonce: Vec<u8>,
}

/// Mathematical form of an envelope.
pub struct MessageView {
    pub body: BodyView,
    pub nonce: Seq<u8>,
}

impl View for Message {
    type V = MessageView;

    open spec fn view(&self) -> MessageView {
        MessageView { body: self.body@, nonce: self.nonce@ }
    }
}

impl Message {
    /// A well-formed envelope carries exactly `NONCE_LEN` nonce bytes.
    pub open spec fn wf(&self) -> bool {
        self.nonce@.len() == NONCE_LEN
    }

    /// Wraps a body in an envelope with a freshly drawn random nonce.
    pub fn new(body: MessageBody) -> (m: Message)
        ensures
            m.wf(),
            m@.body == body@,
    {
        let raw: [u8; 16] = rand::random::<[u8; 16]>();
        let mut nonce: Vec<u8> = Vec::new();
        let mut i: usize = 0;
        while i < 16
            invariant
                i <= 16,
                nonce@.len() == i,
            decreases 16 - i,
        {
            nonce.push(raw[i]);
            i = i + 1;
        }
        Message { body, nonce }
    }
}


/// Why an inbound envelope was dropped.
#[derive(Clone, Copy, PartialEq, Eq, Structural, Debug)]
pub enum MessageError {
    /// The bytes do not parse as an envelope; the message is skipped and
    /// the sending peer is not penalized.
    Malformed,
}

/// Wire tag of each body variant.
pub open spec fn body_tag(b: BodyView) -> u8 {
    match b {
        BodyView::AboutMe { .. } => 1,
        BodyView::VideoFrame { .. } => 2,
        BodyView::RoomFull { .. } => 3,
        BodyView::KeepAlive { .. } => 4,
    }
}

/// A body fits its length prefix.
pub open spec fn body_wf(b: BodyView) -> bool {
    match b {
        BodyView::VideoFrame { frame_data, .. } => frame_data.len() <= u64::MAX,
        _ => true,
    }
}

/// Byte form of a message body: a tag, the sender, then the variant's
/// fields (a video frame carries its dimensions and length-prefixed
/// bytes).
pub open spec fn enc_body(b: BodyView) -> Seq<u8> {
    match b {
        BodyView::AboutMe { from } => seq![1u8] + enc_peer(from),
        BodyView::VideoFrame { from, frame_data, width, height } => seq![2u8] + enc_peer(from)
            + be32(width) + be32(height) + be64(frame_data.len() as u64) + frame_data,
        BodyView::RoomFull { from, target } => seq![3u8] + enc_peer(from) + enc_peer(target),
        BodyView::KeepAlive { from } => seq![4u8] + enc_peer(from),
    }
}

/// Byte form of a whole envelope: the body, then the nonce.
pub open spec fn enc_message(m: MessageView) -> Seq<u8> {
    enc_body(m.body) + m.nonce
}

/// Parses a message body at `off`.
pub open spec fn dec_body(b: Seq<u8>, off: int) -> Option<(BodyView, int)> {
    if !(0 <= off && off < b.len()) {
        None
    } else {
        let tag = b[off];
        if tag == 1 {
            match dec_peer(b, off + 1) {
                Some((from, o)) => Some((BodyView::AboutMe { from }, o)),
                None => None,
            }
        } else if tag == 2 {
            match dec_peer(b, off + 1) {
                Some((from, o1)) => match dec_u32(b, o1) {
                    Some((width, o2)) => match dec_u32(b, o2) {
                        Some((height, o3)) => match dec_u64(b, o3) {
                            Some((n, o4)) => match dec_bytes(b, o4, n as int) {
                                Some((frame_data, o5)) => Some(
                                    (BodyView::VideoFrame { from, frame_data, width, height }, o5),
                                ),
                                None => None,
                            },
                            None => None,
                        },
                        None => None,
                    },
                    None => None,
                },
                None => None,
            }
        } else if tag == 3 {
            match dec_peer(b, off + 1) {
                Some((from, o1)) => match dec_peer(b, o1) {
                    Some((target, o2)) => Some((BodyView::RoomFull { from, target }, o2)),
                    None => None,
                },
                None => None,
            }
        } else if tag == 4 {
            match dec_peer(b, off + 1) {
                Some((from, o)) => Some((BodyView::KeepAlive { from }, o)),
                None => None,
            }
        } else {
            None
        }
    }
}

/// Parses a whole envelope: a body, then the nonce, and nothing after
/// it.
pub open spec fn dec_message(b: Seq<u8>) -> Option<MessageView> {
    match dec_body(b, 0) {
        Some((body, o)) => match dec_bytes(b, o, NONCE_LEN as int) {
            Some((nonce, end)) => if end == b.len() {
                Some(MessageView { body, nonce })
            } else {
                None
            },
            None => None,
        },
        None => None,
    }
}

/// Parsing at the start of an encoded announcement yields it back.
proof fn lemma_dec_about_enc(pre: Seq<u8>, from: PeerId, rest: Seq<u8>)
    ensures
        dec_body(pre + enc_body(BodyView::AboutMe { from }) + rest, pre.len() as int) == Some(
            (
                BodyView::AboutMe { from },
                pre.len() as int + enc_body(BodyView::AboutMe { from }).len() as int,
            ),
        ),
{
    let bv = BodyView::AboutMe { from };
    let b = pre + enc_body(bv) + rest;
    let tag = seq![1u8];
    seq_assoc(pre, enc_body(bv), rest);
    seq_assoc(tag, enc_peer(from), rest);
    seq_assoc(pre, tag, enc_peer(from) + rest);
    assert(b == (pre + tag) + enc_peer(from) + rest) by {
        seq_assoc(pre + tag, enc_peer(from), rest);
    }
    lemma_dec_peer_enc(pre + tag, from, rest);
    assert(b[pre.len() as int] == 1u8) by {
        assert((tag + enc_peer(from))[0] == 1u8);
    }
}

/// Parsing at the start of an encoded keepalive yields it back.
proof fn lemma_dec_keepalive_enc(pre: Seq<u8>, from: PeerId, rest: Seq<u8>)
    ensures
        dec_body(pre + enc_body(BodyView::KeepAlive { from }) + rest, pre.len() as int) == Some(
            (
                BodyView::KeepAlive { from },
                pre.len() as int + enc_body(BodyView::KeepAlive { from }).len() as int,
            ),
        ),
{
    let bv = BodyView::KeepAlive { from };
    let b = pre + enc_body(bv) + rest;
    let tag = seq![4u8];
    seq_assoc(pre, enc_body(bv), rest);
    seq_assoc(tag, enc_peer(from), rest);
    seq_assoc(pre, tag, enc_peer(from) + rest);
    assert(b == (pre + tag) + enc_peer(from) + rest) by {
        seq_assoc(pre + tag, enc_peer(from), rest);
    }
    lemma_dec_peer_enc(pre + tag, from, rest);
    assert(b[pre.len() as int] == 4u8) by {
        assert((tag + enc_peer(from))[0] == 4u8);
    }
}

/// Parsing at the start of an encoded room-full notice yields it back.
proof fn lemma_dec_room_full_enc(pre: Seq<u8>, from: PeerId, target: PeerId, rest: Seq<u8>)
    ensures
        dec_body(pre + enc_body(BodyView::RoomFull { from, target }) + rest, pre.len() as int)
            == Some(
            (
                BodyView::RoomFull { from, target },
                pre.len() as int + enc_body(BodyView::RoomFull { from, target }).len() as int,
            ),
        ),
{
    let bv = BodyView::RoomFull { from, target };
    let b = pre + enc_body(bv) + rest;
    let tag = seq![3u8];
    let s1 = enc_peer(from);
    let s2 = enc_peer(target);
    seq_assoc(pre, enc_body(bv), rest);
    seq_assoc(tag + s1, s2, rest);
    seq_assoc(tag, s1, s2 + rest);
    seq_assoc(pre, tag, s1 + (s2 + rest));
    assert(b == (pre + tag) + (s1 + (s2 + rest)));
    lemma_dec_peer_enc(pre + tag, from, s2 + rest);
    seq_assoc(pre + tag, s1, s2 + rest);
    seq_assoc((pre + tag) + s1, s2, rest);
    lemma_dec_peer_enc((pre + tag) + s1, target, rest);
    assert(b[pre.len() as int] == 3u8) by {
        assert((tag + (s1 + (s2 + rest)))[0] == 3u8);
    }
}

/// Parsing at the start of an encoded video frame yields it back.
proof fn lemma_dec_frame_enc(
    pre: Seq<u8>,
    from: PeerId,
    frame_data: Seq<u8>,
    width: u32,
    height: u32,
    rest: Seq<u8>,
)
    requires
        frame_data.len() <= u64::MAX,
    ensures
        dec_body(
            pre + enc_body(BodyView::VideoFrame { from, frame_data, width, height }) + rest,
            pre.len() as int,
        ) == Some(
            (
                BodyView::VideoFrame { from, frame_data, width, height },
                pre.len() as int + enc_body(
                    BodyView::VideoFrame { from, frame_data, width, height },
                ).len() as int,
            ),
        ),
{
    let bv = BodyView::VideoFrame { from, frame_data, width, height };
    let b = pre + enc_body(bv) + rest;
    let tag = seq![2u8];
    let s1 = enc_peer(from);
    let s2 = be32(width);
    let s3 = be32(height);
    let s4 = be64(frame_data.len() as u64);
    let s5 = frame_data;
    seq_assoc(pre, enc_body(bv), rest);
    seq_assoc((((tag + s1) + s2) + s3) + s4, s5, rest);
    seq_assoc(((tag + s1) + s2) + s3, s4, s5 + rest);
    seq_assoc((tag + s1) + s2, s3, s4 + (s5 + rest));
    seq_assoc(tag + s1, s2, s3 + (s4 + (s5 + rest)));
    seq_assoc(tag, s1, s2 + (s3 + (s4 + (s5 + rest))));
    seq_assoc(pre, tag, s1 + (s2 + (s3 + (s4 + (s5 + rest)))));
    assert(b == (pre + tag) + (s1 + (s2 + (s3 + (s4 + (s5 + rest))))));
    lemma_dec_peer_enc(pre + tag, from, s2 + (s3 + (s4 + (s5 + rest))));
    seq_assoc(pre + tag, s1, s2 + (s3 + (s4 + (s5 + rest))));
    lemma_dec_u32_at((pre + tag) + s1, width, s3 + (s4 + (s5 + rest)));
    seq_assoc((pre + tag) + s1, s2, s3 + (s4 + (s5 + rest)));
    lemma_dec_u32_at(((pre + tag) + s1) + s2, height, s4 + (s5 + rest));
    seq_assoc(((pre + tag) + s1) + s2, s3, s4 + (s5 + rest));
    lemma_dec_u64_at((((pre + tag) + s1) + s2) + s3, frame_data.len() as u64, s5 + rest);
    seq_assoc((((pre + tag) + s1) + s2) + s3, s4, s5 + rest);
    seq_assoc(((((pre + tag) + s1) + s2) + s3) + s4, s5, rest);
    lemma_dec_bytes_at(((((pre + tag) + s1) + s2) + s3) + s4, s5, rest);
    assert(b[pre.len() as int] == 2u8) by {
        assert((tag + (s1 + (s2 + (s3 + (s4 + (s5 + rest))))))[0] == 2u8);
    }
}

/// Parsing at the start of an encoded body yields it back.
proof fn lemma_dec_body_enc(pre: Seq<u8>, bv: BodyView, rest: Seq<u8>)
    requires
        body_wf(bv),
    ensures
        dec_body(pre + enc_body(bv) + rest, pre.len() as int) == Some(
            (bv, pre.len() as int + enc_body(bv).len() as int),
        ),
{
    match bv {
        BodyView::AboutMe { from } => lemma_dec_about_enc(pre, from, rest),
        BodyView::VideoFrame { from, frame_data, width, height } => lemma_dec_frame_enc(
            pre,
            from,
            frame_data,
            width,
            height,
            rest,
        ),
        BodyView::RoomFull { from, target } => lemma_dec_room_full_enc(pre, from, target, rest),
        BodyView::KeepAlive { from } => lemma_dec_keepalive_enc(pre, from, rest),
    }
}

/// Envelope round trip: decoding the byte form of a well-formed
/// envelope yields the original in all fields.
pub proof fn lemma_message_roundtrip(m: MessageView)
    requires
        body_wf(m.body),
        m.nonce.len() == NONCE_LEN,
    ensures
        dec_message(enc_message(m)) == Some(m),
{
    let b = enc_message(m);
    let empty = Seq::<u8>::empty();
    seq_empty_left(b);
    assert(empty + enc_body(m.body) + (m.nonce + empty) == b) by {
        seq_empty_left(enc_body(m.body));
        seq_assoc(enc_body(m.body), m.nonce, empty);
        assert(m.nonce + empty =~= m.nonce);
    }
    lemma_dec_body_enc(empty, m.body, m.nonce + empty);
    lemma_dec_bytes_at(empty + enc_body(m.body), m.nonce, empty);
    assert((empty + enc_body(m.body)) + m.nonce + empty == b) by {
        assert((empty + enc_body(m.body)) + m.nonce + empty =~= b);
    }
}

impl Message {
    /// The wire bytes of this envelope.
    pub fn to_vec(&self) -> (out: Vec<u8>)
        ensures
            out@ == enc_message(self@),
    {
        let mut out: Vec<u8> = Vec::new();
        match &self.body {
            MessageBody::AboutMe { from } => {
                out.push(1);
                push_peer(&mut out, *from);
                proof {
                    assert(seq![1u8] + enc_peer(self@.body->AboutMe_from) =~= out@);
                }
            },
            MessageBody::VideoFrame { from, frame_data, width, height } => {
                out.push(2);
                push_peer(&mut out, *from);
                push_be32(&mut out, *width);
                push_be32(&mut out, *height);
                push_be64(&mut out, frame_data.len() as u64);
                push_bytes(&mut out, frame_data);
                proof {
                    assert(out@ =~= enc_body(self@.body));
                }
            },
            MessageBody::RoomFull { from, target } => {
                out.push(3);
                push_peer(&mut out, *from);
                push_peer(&mut out, *target);
                proof {
                    assert(out@ =~= enc_body(self@.body));
                }
            },
            MessageBody::KeepAlive { from } => {
                out.push(4);
                push_peer(&mut out, *from);
                proof {
                    assert(seq![4u8] + enc_peer(self@.body->KeepAlive_from) =~= out@);
                }
            },
        }
        push_bytes(&mut out, &self.nonce);
        proof {
            assert(out@ =~= enc_message(self@));
        }
        out
    }

    /// Reads an envelope back from wire bytes, failing exactly on the
    /// inputs that `dec_message` rejects.
    pub fn from_bytes(bytes: &[u8]) -> (r: Result<Message, MessageError>)
        ensures
            match dec_message(bytes@) {
                Some(mv) => r matches Ok(m) && m@ == mv && m.wf(),
                None => r == Err::<Message, MessageError>(MessageError::Malformed),
            },
    {
        if bytes.len() == 0 {
            return Err(MessageError::Malformed);
        }
        let tag = bytes[0];
        let (body, off) = if tag == 1 {
            match parse_peer(bytes, 1) {
                Some((from, o)) => (MessageBody::AboutMe { from }, o),
                None => {
                    return Err(MessageError::Malformed);
                },
            }
        } else if tag == 2 {
            match parse_peer(bytes, 1) {
                Some((from, o1)) => match parse_u32(bytes, o1) {
                    Some((width, o2)) => match parse_u32(bytes, o2) {
                        Some((height, o3)) => match parse_u64(bytes, o3) {
                            Some((n, o4)) => {
                                if n > usize::MAX as u64 {
                                    proof {
                                        lemma_dec_bytes_none(bytes@, o4 as int, n as int);
                                    }
                                    return Err(MessageError::Malformed);
                                }
                                match parse_bytes(bytes, o4, n as usize) {
                                    Some((frame_data, o5)) => (
                                        MessageBody::VideoFrame { from, frame_data, width, height },
                                        o5,
                                    ),
                                    None => {
                                        return Err(MessageError::Malformed);
                                    },
                                }
                            },
                            None => {
                                return Err(MessageError::Malformed);
                            },
                        },
                        None => {
                            return Err(MessageError::Malformed);
                        },
                    },
                    None => {
                        return Err(MessageError::Malformed);
                    },
                },
                None => {
                    return Err(MessageError::Malformed);
                },
            }
        } else if tag == 3 {
            match parse_peer(bytes, 1) {
                Some((from, o1)) => match parse_peer(bytes, o1) {
                    Some((target, o2)) => (MessageBody::RoomFull { from, target }, o2),
                    None => {
                        return Err(MessageError::Malformed);
                    },
                },
                None => {
                    return Err(MessageError::Malformed);
                },
            }
        } else if tag == 4 {
            match parse_peer(bytes, 1) {
                Some((from, o)) => (MessageBody::KeepAlive { from }, o),
                None => {
                    return Err(MessageError::Malformed);
                },
            }
        } else {
            return Err(MessageError::Malformed);
        };
        match parse_bytes(bytes, off, NONCE_LEN) {
            Some((nonce, end)) => {
                if end == bytes.len() {
                    Ok(Message { body, nonce })
                } else {
                    Err(MessageError::Malformed)
                }
            },
            None => Err(MessageError::Malformed),
        }
    }
}

} // verus!
