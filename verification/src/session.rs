//! Session admission: the per-peer state machine that enforces the
//! two-party room cap over an unordered, unreliable broadcast channel.
//!
//! The room holds the local process plus at most one other connected
//! peer.  A peer turned away is rejected for the lifetime of the process;
//! rejection is never cleared.  All decisions are made here from inbound
//! envelopes; the surrounding process performs the resulting actions
//! (broadcasting replies, rendering frames, terminating).

use vstd::prelude::*;
use crate::ids::PeerId;
use crate::codec::{Message, MessageBody, BodyView, body_from};

verus! {

/// Membership status of one remote peer, as seen by this process.
#[derive(Clone, Copy, PartialEq, Eq, Structural, Debug)]
pub enum PeerStatus {
    Unknown,
    Connected,
    Rejected,
}

/// What the surrounding process must do after one inbound envelope.
pub enum SessionAction {
    /// Hand an accepted frame to the render path.
    DeliverFrame { frame_data: Vec<u8>, width: u32, height: u32 },
    /// Broadcast a room-full notice aimed at `target`.
    SendRoomFull { target: PeerId },
    /// A room-full notice aimed at this process arrived: the attempted
    /// room is occupied and the process must exit with a failure status.
    Terminate,
}

/// Mathematical form of an action: frame bytes as a sequence.
pub enum ActionView {
    DeliverFrame { frame_data: Seq<u8>, width: u32, height: u32 },
    SendRoomFull { target: PeerId },
    Terminate,
}

impl View for SessionAction {
    type V = ActionView;

    open spec fn view(&self) -> ActionView {
        match self {
            SessionAction::DeliverFrame { frame_data, width, height } => ActionView::DeliverFrame {
                frame_data: frame_data@,
                width: *width,
                height: *height,
            },
            SessionAction::SendRoomFull { target } => ActionView::SendRoomFull { target: *target },
            SessionAction::Terminate => ActionView::Terminate,
        }
    }
}

/// Mathematical form of the admission state.
pub struct SessionModel {
    pub my_id: PeerId,
    pub connected: Option<PeerId>,
    pub rejected: Set<PeerId>,
}

impl SessionModel {
    /// The local process never appears in its own peer records, and a
    /// connected peer is never simultaneously rejected.
    pub open spec fn wf(self) -> bool {
        &&& !self.rejected.contains(self.my_id)
        &&& self.connected matches Some(p) ==> p != self.my_id && !self.rejected.contains(p)
    }

    /// Status of a remote peer under this state.
    pub open spec fn status_of(self, p: PeerId) -> PeerStatus {
        if self.rejected.contains(p) {
            PeerStatus::Rejected
        } else if self.connected == Some(p) {
            PeerStatus::Connected
        } else {
            PeerStatus::Unknown
        }
    }
}

/// State after one inbound body.  Self-originated envelopes and envelopes
/// from rejected peers never change the state; an unknown peer is admitted
/// while the room has capacity and rejected otherwise; a keepalive from an
/// unknown peer admits it only silently, and only while there is capacity.
pub open spec fn session_step(s: SessionModel, b: BodyView) -> SessionModel {
    let from = body_from(b);
    if from == s.my_id || s.rejected.contains(from) {
        s
    } else {
        match b {
            BodyView::AboutMe { .. } | BodyView::VideoFrame { .. } => match s.connected {
                Some(p) => if p == from {
                    s
                } else {
                    SessionModel { rejected: s.rejected.insert(from), ..s }
                },
                None => SessionModel { connected: Some(from), ..s },
            },
            BodyView::RoomFull { .. } => s,
            BodyView::KeepAlive { .. } => match s.connected {
                Some(_) => s,
                None => SessionModel { connected: Some(from), ..s },
            },
        }
    }
}

/// Actions owed after one inbound body.  A rejected peer that keeps
/// announcing or sending frames draws one targeted room-full reply; a
/// newly rejected peer draws three, compensating for unreliable delivery;
/// a frame from the connected peer (or from the peer being admitted by
/// it) is delivered; a room-full notice aimed at this process terminates
/// it.
pub open spec fn session_response(s: SessionModel, b: BodyView) -> Seq<ActionView> {
    let from = body_from(b);
    if from == s.my_id {
        Seq::empty()
    } else {
        match b {
            BodyView::AboutMe { .. } => if s.rejected.contains(from) {
                seq![ActionView::SendRoomFull { target: from }]
            } else {
                match s.connected {
                    Some(p) => if p == from {
                        Seq::empty()
                    } else {
                        seq![
                            ActionView::SendRoomFull { target: from },
                            ActionView::SendRoomFull { target: from },
                            ActionView::SendRoomFull { target: from },
                        ]
                    },
                    None => Seq::empty(),
                }
            },
            BodyView::VideoFrame { frame_data, width, height, .. } => if s.rejected.contains(
                from,
            ) {
                seq![ActionView::SendRoomFull { target: from }]
            } else {
                match s.connected {
                    Some(p) => if p == from {
                        seq![ActionView::DeliverFrame { frame_data, width, height }]
                    } else {
                        seq![ActionView::SendRoomFull { target: from }]
                    },
                    None => seq![ActionView::DeliverFrame { frame_data, width, height }],
                }
            },
            BodyView::RoomFull { target, .. } => if target == s.my_id {
                seq![ActionView::Terminate]
            } else {
                Seq::empty()
            },
            BodyView::KeepAlive { .. } => Seq::empty(),
        }
    }
}

/// The admission state: the local identity, the one connected peer if
/// any, and every peer rejected so far.
pub struct Session {
    my_id: PeerId,
    connected: Option<PeerId>,
    rejected: Vec<PeerId>,
}

impl View for Session {
    type V = SessionModel;

    closed spec fn view(&self) -> SessionModel {
        SessionModel {
            my_id: self.my_id,
            connected: self.connected,
            rejected: self.rejected@.to_set(),
        }
    }
}

proof fn lemma_push_to_set(s: Seq<PeerId>, x: PeerId)
    ensures
        s.push(x).to_set() == s.to_set().insert(x),
{
    assert forall|a: PeerId|
        s.push(x).to_set().contains(a) <==> s.to_set().insert(x).contains(a) by {
        if a == x {
            assert(s.push(x)[s.len() as int] == x);
        } else {
            if s.contains(a) {
                let i = choose|i: int| 0 <= i < s.len() && s[i] == a;
                assert(s.push(x)[i] == a);
            }
            if s.push(x).contains(a) {
                let i = choose|i: int| 0 <= i < s.push(x).len() && s.push(x)[i] == a;
                assert(s[i] == a);
            }
        }
    }
    assert(s.push(x).to_set() =~= s.to_set().insert(x));
}

/// Whether `v` holds `p`.
fn contains_peer(v: &Vec<PeerId>, p: PeerId) -> (r: bool)
    ensures
        r == v@.contains(p),
{
    let mut i: usize = 0;
    while i < v.len()
        invariant
            i <= v@.len(),
            forall|j: int| 0 <= j < i ==> v@[j] != p,
        decreases v@.len() - i,
    {
        if v[i].w0 == p.w0 && v[i].w1 == p.w1 && v[i].w2 == p.w2 && v[i].w3 == p.w3 {
            return true;
        }
        i = i + 1;
    }
    false
}

impl Session {
    /// A well-formed session mirrors a well-formed model.
    pub open spec fn wf(&self) -> bool {
        self@.wf()
    }

    /// A fresh session for the local peer `my_id`: no peer connected, no
    /// peer rejected.
    pub fn new(my_id: PeerId) -> (s: Session)
        ensures
            s.wf(),
            s@.my_id == my_id,
            s@.connected is None,
            s@.rejected == Set::<PeerId>::empty(),
    {
        let s = Session { my_id, connected: None, rejected: Vec::new() };
        proof {
            assert(s@.rejected =~= Set::<PeerId>::empty());
        }
        s
    }

    /// The local identity.
    pub fn my_id(&self) -> (r: PeerId)
        ensures
            r == self@.my_id,
    {
        self.my_id
    }

    /// The connected remote peer, if any.
    pub fn connected_peer(&self) -> (r: Option<PeerId>)
        ensures
            r == self@.connected,
    {
        self.connected
    }

    /// Status of a remote peer.
    pub fn status_of(&self, p: PeerId) -> (r: PeerStatus)
        ensures
            r == self@.status_of(p),
    {
        if contains_peer(&self.rejected, p) {
            PeerStatus::Rejected
        } else {
            match self.connected {
                Some(q) => if q.w0 == p.w0 && q.w1 == p.w1 && q.w2 == p.w2 && q.w3 == p.w3 {
                    PeerStatus::Connected
                } else {
                    PeerStatus::Unknown
                },
                None => PeerStatus::Unknown,
            }
        }
    }

    /// Classifies one inbound envelope, updates the peer records, and
    /// returns the actions the process owes: exactly those of
    /// `session_response`, with the state advancing to `session_step`.
    pub fn handle_message(&mut self, msg: Message) -> (acts: Vec<SessionAction>)
        requires
            old(self).wf(),
        ensures
            final(self).wf(),
            final(self)@ == session_step(old(self)@, msg.body@),
            acts@.map_values(|a: SessionAction| a@) == session_response(old(self)@, msg.body@),
    {
        let ghost m0 = self@;
        let ghost bv = msg.body@;
        let my = self.my_id;
        let mut acts: Vec<SessionAction> = Vec::new();
        match msg.body {
            MessageBody::AboutMe { from } => {
                if from == my {
                } else if contains_peer(&self.rejected, from) {
                    acts.push(SessionAction::SendRoomFull { target: from });
                } else {
                    match self.connected {
                        Some(p) => {
                            if p == from {
                            } else {
                                let ghost r0 = self.rejected@;
                                self.rejected.push(from);
                                proof {
                                    lemma_push_to_set(r0, from);
                                }
                                acts.push(SessionAction::SendRoomFull { target: from });
                                acts.push(SessionAction::SendRoomFull { target: from });
                                acts.push(SessionAction::SendRoomFull { target: from });
                            }
                        },
                        None => {
                            self.connected = Some(from);
                        },
                    }
                }
            },
            MessageBody::VideoFrame { from, frame_data, width, height } => {
                if from == my {
                } else if contains_peer(&self.rejected, from) {
                    acts.push(SessionAction::SendRoomFull { target: from });
                } else {
                    match self.connected {
                        Some(p) => {
                            if p == from {
                                acts.push(
                                    SessionAction::DeliverFrame { frame_data, width, height },
                                );
                            } else {
                                let ghost r0 = self.rejected@;
                                self.rejected.push(from);
                                proof {
                                    lemma_push_to_set(r0, from);
                                }
                                acts.push(SessionAction::SendRoomFull { target: from });
                            }
                        },
                        None => {
                            self.connected = Some(from);
                            acts.push(SessionAction::DeliverFrame { frame_data, width, height });
                        },
                    }
                }
            },
            MessageBody::RoomFull { from, target } => {
                if from != my && target == my {
                    acts.push(SessionAction::Terminate);
                }
            },
            MessageBody::KeepAlive { from } => {
                if from == my {
                } else if contains_peer(&self.rejected, from) {
                } else {
                    match self.connected {
                        Some(_) => {},
                        None => {
                            self.connected = Some(from);
                        },
                    }
                }
            },
        }
        proof {
            assert(self@.rejected =~= session_step(m0, bv).rejected);
            assert(self@ == session_step(m0, bv));
            assert(acts@.map_values(|a: SessionAction| a@) =~= session_response(m0, bv));
        }
        acts
    }
}

/// The room never holds more than one connected remote peer: any two
/// peers that are both connected under one state are the same peer.
pub proof fn lemma_room_capacity(s: SessionModel, p: PeerId, q: PeerId)
    requires
        s.status_of(p) == PeerStatus::Connected,
        s.status_of(q) == PeerStatus::Connected,
    ensures
        p == q,
{
}

/// Rejection is monotonic: no inbound body ever removes a peer from the
/// rejected records.
pub proof fn lemma_rejection_monotonic(s: SessionModel, b: BodyView)
    ensures
        s.rejected.subset_of(session_step(s, b).rejected),
{
}

/// A peer that was told the room is full stays rejected: any further
/// envelope from it leaves it rejected, never re-admits it, never has a
/// frame of its delivered, and (when it announces itself or sends a
/// frame) draws one more targeted room-full reply.
pub proof fn lemma_rejected_is_terminal(s: SessionModel, b: BodyView)
    requires
        s.wf(),
        s.rejected.contains(body_from(b)),
    ensures
        session_step(s, b).status_of(body_from(b)) == PeerStatus::Rejected,
        forall|i: int|
            0 <= i < session_response(s, b).len() ==> !(session_response(s, b)[i]
                is DeliverFrame),
        (b is AboutMe || b is VideoFrame) ==> session_response(s, b) == seq![
            ActionView::SendRoomFull { target: body_from(b) },
        ],
{
}

} // verus!
