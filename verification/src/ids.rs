//! Peer and topic identities.
//!
//! Both are 256-bit values, held as four 64-bit words so that equality is
//! plain field equality.  The process boundary converts between these and
//! whatever identity type the transport uses.

use vstd::prelude::*;
use crate::wire::{
    be64, dec_u64, lemma_dec_u64_at, push_be64, parse_u64, seq_assoc,
};

verus! {

broadcast use crate::wire::lemma_be64_len;

/// Identity of one participant.
#[derive(Clone, Copy, PartialEq, Eq, Structural, Debug, Hash)]
pub struct PeerId {
    pub w0: u64,
    pub w1: u64,
    pub w2: u64,
    pub w3: u64,
}

/// Identity of the logical channel (room) a session is bound to.
#[derive(Clone, Copy, PartialEq, Eq, Structural, Debug, Hash)]
pub struct TopicId {
    pub w0: u64,
    pub w1: u64,
    pub w2: u64,
    pub w3: u64,
}

/// Byte form of a peer identity: its four words, big-endian.
pub open spec fn enc_peer(p: PeerId) -> Seq<u8> {
    be64(p.w0) + be64(p.w1) + be64(p.w2) + be64(p.w3)
}

/// Byte form of a topic identity: its four words, big-endian.
pub open spec fn enc_topic(t: TopicId) -> Seq<u8> {
    be64(t.w0) + be64(t.w1) + be64(t.w2) + be64(t.w3)
}

/// Parses a peer identity at `off`.
pub open spec fn dec_peer(b: Seq<u8>, off: int) -> Option<(PeerId, int)> {
    match dec_u64(b, off) {
        Some((w0, o1)) => match dec_u64(b, o1) {
            Some((w1, o2)) => match dec_u64(b, o2) {
                Some((w2, o3)) => match dec_u64(b, o3) {
                    Some((w3, o4)) => Some((PeerId { w0, w1, w2, w3 }, o4)),
                    None => None,
                },
                None => None,
            },
            None => None,
        },
        None => None,
    }
}

/// Parses a topic identity at `off`.
pub open spec fn dec_topic(b: Seq<u8>, off: int) -> Option<(TopicId, int)> {
    match dec_peer(b, off) {
        Some((p, o)) => Some((TopicId { w0: p.w0, w1: p.w1, w2: p.w2, w3: p.w3 }, o)),
        None => None,
    }
}

/// Parsing at the start of an encoded peer identity yields it back.
pub proof fn lemma_dec_peer_enc(pre: Seq<u8>, p: PeerId, rest: Seq<u8>)
    ensures
        dec_peer(pre + enc_peer(p) + rest, pre.len() as int) == Some(
            (p, pre.len() as int + 32),
        ),
{
    let s0 = be64(p.w0);
    let s1 = be64(p.w1);
    let s2 = be64(p.w2);
    let s3 = be64(p.w3);
    let b = pre + enc_peer(p) + rest;
    seq_assoc(pre, enc_peer(p), rest);
    seq_assoc((s0 + s1) + s2, s3, rest);
    seq_assoc(s0 + s1, s2, s3 + rest);
    seq_assoc(s0, s1, s2 + (s3 + rest));
    seq_assoc(pre, s0, s1 + (s2 + (s3 + rest)));
    assert(b == (pre + s0) + (s1 + (s2 + (s3 + rest))));
    lemma_dec_u64_at(pre, p.w0, s1 + (s2 + (s3 + rest)));
    seq_assoc(pre + s0, s1, s2 + (s3 + rest));
    lemma_dec_u64_at(pre + s0, p.w1, s2 + (s3 + rest));
    seq_assoc((pre + s0) + s1, s2, s3 + rest);
    lemma_dec_u64_at((pre + s0) + s1, p.w2, s3 + rest);
    seq_assoc(((pre + s0) + s1) + s2, s3, rest);
    lemma_dec_u64_at(((pre + s0) + s1) + s2, p.w3, rest);
}

/// Parsing at the start of an encoded topic identity yields it back.
pub proof fn lemma_dec_topic_enc(pre: Seq<u8>, t: TopicId, rest: Seq<u8>)
    ensures
        dec_topic(pre + enc_topic(t) + rest, pre.len() as int) == Some(
            (t, pre.len() as int + 32),
        ),
{
    let p = PeerId { w0: t.w0, w1: t.w1, w2: t.w2, w3: t.w3 };
    assert(enc_topic(t) == enc_peer(p));
    lemma_dec_peer_enc(pre, p, rest);
}

/// Appends the byte form of a peer identity.
pub fn push_peer(out: &mut Vec<u8>, p: PeerId)
    ensures
        final(out)@ == old(out)@ + enc_peer(p),
{
    push_be64(out, p.w0);
    push_be64(out, p.w1);
    push_be64(out, p.w2);
    push_be64(out, p.w3);
    proof {
        seq_assoc(old(out)@, be64(p.w0), be64(p.w1));
        seq_assoc(old(out)@, be64(p.w0) + be64(p.w1), be64(p.w2));
        seq_assoc(old(out)@, (be64(p.w0) + be64(p.w1)) + be64(p.w2), be64(p.w3));
    }
}

/// Appends the byte form of a topic identity.
pub fn push_topic(out: &mut Vec<u8>, t: TopicId)
    ensures
        final(out)@ == old(out)@ + enc_topic(t),
{
    let p = PeerId { w0: t.w0, w1: t.w1, w2: t.w2, w3: t.w3 };
    proof {
        assert(enc_topic(t) == enc_peer(p));
    }
    push_peer(out, p);
}

/// Reads a peer identity at `off`, exactly as `dec_peer` says.
pub fn parse_peer(b: &[u8], off: usize) -> (r: Option<(PeerId, usize)>)
    ensures
        match r {
            Some((p, o2)) => dec_peer(b@, off as int) == Some((p, o2 as int)),
            None => dec_peer(b@, off as int) is None,
        },
{
    match parse_u64(b, off) {
        Some((w0, o1)) => match parse_u64(b, o1) {
            Some((w1, o2)) => match parse_u64(b, o2) {
                Some((w2, o3)) => match parse_u64(b, o3) {
                    Some((w3, o4)) => Some((PeerId { w0, w1, w2, w3 }, o4)),
                    None => None,
                },
                None => None,
            },
            None => None,
        },
        None => None,
    }
}

} // verus!
