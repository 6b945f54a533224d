//! Room tickets: the bootstrap descriptor that lets a second party join
//! an existing room, with its portable byte and text forms.
//!
//! A ticket names the room's topic and, for each listed peer, its
//! identity and direct addresses.  Addresses are carried as opaque byte
//! strings; the process boundary converts them to whatever address type
//! the transport uses.

use vstd::prelude::*;
use crate::ids::{
    PeerId, TopicId, enc_peer, enc_topic, dec_peer, dec_topic, lemma_dec_peer_enc,
    lemma_dec_topic_enc, push_peer, push_topic, parse_peer,
};
use crate::wire::{
    be16, dec_u16, dec_bytes, lemma_dec_u16_at, lemma_dec_bytes_at, push_be16, push_bytes,
    parse_u16, parse_bytes, seq_assoc, seq_empty_left,
};

verus! {

broadcast use {crate::wire::lemma_be16_len, crate::wire::lemma_be32_len, crate::wire::lemma_be64_len};

/// One listed peer: its identity and its direct addresses, each an
/// opaque byte string.
pub struct CompactNodeInfo {
    pub node_id: PeerId,
    pub direct_addresses: Vec<Vec<u8>>,
}

/// Mathematical form of one listed peer.
pub struct NodeInfoView {
    pub node_id: PeerId,
    pub direct_addresses: Seq<Seq<u8>>,
}

impl View for CompactNodeInfo {
    type V = NodeInfoView;

    open spec fn view(&self) -> NodeInfoView {
        NodeInfoView {
            node_id: self.node_id,
            direct_addresses: self.direct_addresses@.map_values(|a: Vec<u8>| a@),
        }
    }
}

/// The bootstrap descriptor for a room.
pub struct Ticket {
    pub topic: TopicId,
    pub nodes: Vec<CompactNodeInfo>,
}

/// Mathematical form of a ticket.
pub struct TicketView {
    pub topic: TopicId,
    pub nodes: Seq<NodeInfoView>,
}

impl View for Ticket {
    type V = TicketView;

    open spec fn view(&self) -> TicketView {
        TicketView { topic: self.topic, nodes: self.nodes@.map_values(|n: CompactNodeInfo| n@) }
    }
}

/// An address fits its length prefix.
pub open spec fn addr_wf(a: Seq<u8>) -> bool {
    a.len() <= u16::MAX
}

/// A listed peer fits its counts.
pub open spec fn node_wf(n: NodeInfoView) -> bool {
    &&& n.direct_addresses.len() <= u16::MAX
    &&& forall|i: int| 0 <= i < n.direct_addresses.len() ==> addr_wf(#[trigger] n.direct_addresses[i])
}

/// A ticket fits its counts.
pub open spec fn ticket_wf(t: TicketView) -> bool {
    &&& t.nodes.len() <= u16::MAX
    &&& forall|i: int| 0 <= i < t.nodes.len() ==> node_wf(#[trigger] t.nodes[i])
}

impl Ticket {
    /// A well-formed ticket fits the counts of its byte form.
    pub open spec fn wf(&self) -> bool {
        ticket_wf(self@)
    }
}

/// Byte form of one address: its length, then its bytes.
pub open spec fn enc_addr(a: Seq<u8>) -> Seq<u8> {
    be16(a.len() as u16) + a
}

/// Byte form of a run of addresses, in order.
pub open spec fn enc_addr_list(aa: Seq<Seq<u8>>) -> Seq<u8>
    decreases aa.len(),
{
    if aa.len() == 0 {
        Seq::empty()
    } else {
        enc_addr(aa[0]) + enc_addr_list(aa.drop_first())
    }
}

/// Byte form of one listed peer: its identity, its address count, then
/// its addresses.
pub open spec fn enc_node(n: NodeInfoView) -> Seq<u8> {
    enc_peer(n.node_id) + be16(n.direct_addresses.len() as u16) + enc_addr_list(
        n.direct_addresses,
    )
}

/// Byte form of a run of listed peers, in order.
pub open spec fn enc_node_list(nn: Seq<NodeInfoView>) -> Seq<u8>
    decreases nn.len(),
{
    if nn.len() == 0 {
        Seq::empty()
    } else {
        enc_node(nn[0]) + enc_node_list(nn.drop_first())
    }
}

/// Byte form of a whole ticket: the topic, the peer count, then the
/// peers.
pub open spec fn enc_ticket(t: TicketView) -> Seq<u8> {
    enc_topic(t.topic) + be16(t.nodes.len() as u16) + enc_node_list(t.nodes)
}

/// Parses one length-prefixed address at `off`.
pub open spec fn dec_addr(b: Seq<u8>, off: int) -> Option<(Seq<u8>, int)> {
    match dec_u16(b, off) {
        Some((n, o1)) => dec_bytes(b, o1, n as int),
        None => None,
    }
}

/// Parses `k` addresses at `off`.
pub open spec fn dec_addr_list(b: Seq<u8>, off: int, k: nat) -> Option<(Seq<Seq<u8>>, int)>
    decreases k,
{
    if k == 0 {
        Some((Seq::empty(), off))
    } else {
        match dec_addr(b, off) {
            Some((a, o1)) => match dec_addr_list(b, o1, (k - 1) as nat) {
                Some((rest, end)) => Some((seq![a] + rest, end)),
                None => None,
            },
            None => None,
        }
    }
}

/// Parses one listed peer at `off`.
pub open spec fn dec_node(b: Seq<u8>, off: int) -> Option<(NodeInfoView, int)> {
    match dec_peer(b, off) {
        Some((p, o1)) => match dec_u16(b, o1) {
            Some((k, o2)) => match dec_addr_list(b, o2, k as nat) {
                Some((aa, end)) => Some((NodeInfoView { node_id: p, direct_addresses: aa }, end)),
                None => None,
            },
            None => None,
        },
        None => None,
    }
}

/// Parses `k` listed peers at `off`.
pub open spec fn dec_node_list(b: Seq<u8>, off: int, k: nat) -> Option<(Seq<NodeInfoView>, int)>
    decreases k,
{
    if k == 0 {
        Some((Seq::empty(), off))
    } else {
        match dec_node(b, off) {
            Some((n, o1)) => match dec_node_list(b, o1, (k - 1) as nat) {
                Some((rest, end)) => Some((seq![n] + rest, end)),
                None => None,
            },
            None => None,
        }
    }
}

/// Parses a whole ticket: the topic, the peer count, the peers, and
/// nothing after them.
pub open spec fn dec_ticket(b: Seq<u8>) -> Option<TicketView> {
    match dec_topic(b, 0) {
        Some((t, o1)) => match dec_u16(b, o1) {
            Some((k, o2)) => match dec_node_list(b, o2, k as nat) {
                Some((nn, end)) => if end == b.len() {
                    Some(TicketView { topic: t, nodes: nn })
                } else {
                    None
                },
                None => None,
            },
            None => None,
        },
        None => None,
    }
}

/// Parsing at the start of an encoded address yields it back.
proof fn lemma_dec_addr_enc(pre: Seq<u8>, a: Seq<u8>, rest: Seq<u8>)
    requires
        addr_wf(a),
    ensures
        dec_addr(pre + enc_addr(a) + rest, pre.len() as int) == Some(
            (a, pre.len() as int + 2 + a.len() as int),
        ),
{
    let s0 = be16(a.len() as u16);
    let b = pre + enc_addr(a) + rest;
    seq_assoc(pre, enc_addr(a), rest);
    seq_assoc(s0, a, rest);
    seq_assoc(pre, s0, a + rest);
    assert(b == (pre + s0) + (a + rest));
    lemma_dec_u16_at(pre, a.len() as u16, a + rest);
    seq_assoc(pre + s0, a, rest);
    lemma_dec_bytes_at(pre + s0, a, rest);
}

/// Parsing at the start of an encoded run of addresses yields it back.
proof fn lemma_dec_addr_list_enc(pre: Seq<u8>, aa: Seq<Seq<u8>>, rest: Seq<u8>)
    requires
        forall|i: int| 0 <= i < aa.len() ==> addr_wf(#[trigger] aa[i]),
    ensures
        dec_addr_list(pre + enc_addr_list(aa) + rest, pre.len() as int, aa.len() as nat) == Some(
            (aa, pre.len() as int + enc_addr_list(aa).len() as int),
        ),
    decreases aa.len(),
{
    if aa.len() == 0 {
        assert(enc_addr_list(aa) == Seq::<u8>::empty());
        assert(pre + enc_addr_list(aa) + rest == pre + rest) by {
            assert(pre + enc_addr_list(aa) + rest =~= pre + rest);
        }
        assert(aa =~= Seq::<Seq<u8>>::empty());
    } else {
        let head = aa[0];
        let tail = aa.drop_first();
        let sh = enc_addr(head);
        let st = enc_addr_list(tail);
        let b = pre + enc_addr_list(aa) + rest;
        seq_assoc(pre, sh + st, rest);
        seq_assoc(sh, st, rest);
        seq_assoc(pre, sh, st + rest);
        assert(b == (pre + sh) + (st + rest));
        lemma_dec_addr_enc(pre, head, st + rest);
        seq_assoc(pre + sh, st, rest);
        lemma_dec_addr_list_enc(pre + sh, tail, rest);
        assert(seq![head] + tail =~= aa);
    }
}

/// Parsing at the start of an encoded listed peer yields it back.
proof fn lemma_dec_node_enc(pre: Seq<u8>, n: NodeInfoView, rest: Seq<u8>)
    requires
        node_wf(n),
    ensures
        dec_node(pre + enc_node(n) + rest, pre.len() as int) == Some(
            (n, pre.len() as int + enc_node(n).len() as int),
        ),
{
    let s0 = enc_peer(n.node_id);
    let cnt = n.direct_addresses.len() as u16;
    let s1 = be16(cnt);
    let s2 = enc_addr_list(n.direct_addresses);
    let b = pre + enc_node(n) + rest;
    seq_assoc(pre, enc_node(n), rest);
    seq_assoc(s0 + s1, s2, rest);
    seq_assoc(s0, s1, s2 + rest);
    seq_assoc(pre, s0, s1 + (s2 + rest));
    assert(b == (pre + s0) + (s1 + (s2 + rest)));
    lemma_dec_peer_enc(pre, n.node_id, s1 + (s2 + rest));
    seq_assoc(pre + s0, s1, s2 + rest);
    lemma_dec_u16_at(pre + s0, cnt, s2 + rest);
    seq_assoc((pre + s0) + s1, s2, rest);
    lemma_dec_addr_list_enc((pre + s0) + s1, n.direct_addresses, rest);
}

/// Parsing at the start of an encoded run of listed peers yields it
/// back.
proof fn lemma_dec_node_list_enc(pre: Seq<u8>, nn: Seq<NodeInfoView>, rest: Seq<u8>)
    requires
        forall|i: int| 0 <= i < nn.len() ==> node_wf(#[trigger] nn[i]),
    ensures
        dec_node_list(pre + enc_node_list(nn) + rest, pre.len() as int, nn.len() as nat) == Some(
            (nn, pre.len() as int + enc_node_list(nn).len() as int),
        ),
    decreases nn.len(),
{
    if nn.len() == 0 {
        assert(enc_node_list(nn) == Seq::<u8>::empty());
        assert(pre + enc_node_list(nn) + rest == pre + rest) by {
            assert(pre + enc_node_list(nn) + rest =~= pre + rest);
        }
        assert(nn =~= Seq::<NodeInfoView>::empty());
    } else {
        let head = nn[0];
        let tail = nn.drop_first();
        let sh = enc_node(head);
        let st = enc_node_list(tail);
        let b = pre + enc_node_list(nn) + rest;
        seq_assoc(pre, sh + st, rest);
        seq_assoc(sh, st, rest);
        seq_assoc(pre, sh, st + rest);
        assert(b == (pre + sh) + (st + rest));
        lemma_dec_node_enc(pre, head, st + rest);
        seq_assoc(pre + sh, st, rest);
        lemma_dec_node_list_enc(pre + sh, tail, rest);
        assert(seq![head] + tail =~= nn);
    }
}

/// Ticket round trip: decoding the byte form of any well-formed ticket
/// yields a ticket equal to the original in all fields.
pub proof fn lemma_ticket_roundtrip(t: TicketView)
    requires
        ticket_wf(t),
    ensures
        dec_ticket(enc_ticket(t)) == Some(t),
{
    let s0 = enc_topic(t.topic);
    let cnt = t.nodes.len() as u16;
    let s1 = be16(cnt);
    let s2 = enc_node_list(t.nodes);
    let b = enc_ticket(t);
    let empty = Seq::<u8>::empty();
    seq_empty_left(b);
    seq_assoc(s0, s1, s2);
    assert(b == (empty + s0) + (s1 + s2)) by {
        seq_empty_left(s0);
    }
    assert(s2 == s2 + empty) by {
        assert(s2 + empty =~= s2);
    }
    lemma_dec_topic_enc(empty, t.topic, s1 + s2);
    assert(b == ((empty + s0) + s1) + s2) by {
        seq_assoc(empty + s0, s1, s2);
    }
    lemma_dec_u16_at(empty + s0, cnt, s2);
    lemma_dec_node_list_enc((empty + s0) + s1, t.nodes, empty);
    assert(b == (((empty + s0) + s1) + s2) + empty) by {
        assert((((empty + s0) + s1) + s2) + empty =~= b);
    }
}

/// Why a ticket could not be read or written.
#[derive(Clone, Copy, PartialEq, Eq, Structural, Debug)]
pub enum TicketError {
    /// The byte form does not parse as a ticket.
    Malformed,
    /// The text form is not valid base64.
    BadEncoding,
    /// The byte form would be too long to encode as text.
    TooLarge,
    /// No free short code was found.
    CodesExhausted,
}

/// Appends the byte form of one address.
fn push_addr(out: &mut Vec<u8>, a: &Vec<u8>)
    requires
        addr_wf(a@),
    ensures
        final(out)@ == old(out)@ + enc_addr(a@),
{
    push_be16(out, a.len() as u16);
    push_bytes(out, a);
    proof {
        seq_assoc(old(out)@, be16(a@.len() as u16), a@);
    }
}

/// Appends the byte form of one listed peer.
fn push_node(out: &mut Vec<u8>, n: &CompactNodeInfo)
    requires
        node_wf(n@),
    ensures
        final(out)@ == old(out)@ + enc_node(n@),
{
    let ghost base = out@;
    push_peer(out, n.node_id);
    push_be16(out, n.direct_addresses.len() as u16);
    let ghost header = out@;
    proof {
        assert(n@.direct_addresses.skip(0) =~= n@.direct_addresses);
    }
    let cnt = n.direct_addresses.len();
    let mut i: usize = 0;
    while i < cnt
        invariant
            node_wf(n@),
            cnt == n.direct_addresses@.len(),
            i <= cnt,
            out@ + enc_addr_list(n@.direct_addresses.skip(i as int)) == header + enc_addr_list(
                n@.direct_addresses,
            ),
        decreases cnt - i,
    {
        let ghost pre = out@;
        let ghost aa = n@.direct_addresses.skip(i as int);
        proof {
            assert(aa[0] == n@.direct_addresses[i as int]);
            assert(n@.direct_addresses[i as int] == n.direct_addresses@[i as int]@);
        }
        push_addr(out, &n.direct_addresses[i]);
        proof {
            assert(aa.drop_first() =~= n@.direct_addresses.skip(i as int + 1));
            assert(enc_addr_list(aa) == enc_addr(aa[0]) + enc_addr_list(aa.drop_first()));
            seq_assoc(pre, enc_addr(aa[0]), enc_addr_list(aa.drop_first()));
        }
        i = i + 1;
    }
    proof {
        assert(n@.direct_addresses.skip(cnt as int) =~= Seq::<Seq<u8>>::empty());
        assert(out@ + Seq::<u8>::empty() =~= out@);
        seq_assoc(base, enc_peer(n@.node_id), be16(n@.direct_addresses.len() as u16));
        seq_assoc(
            base,
            enc_peer(n@.node_id) + be16(n@.direct_addresses.len() as u16),
            enc_addr_list(n@.direct_addresses),
        );
    }
}

impl Ticket {
    /// The portable byte form of this ticket.
    pub fn to_bytes(&self) -> (out: Vec<u8>)
        requires
            self.wf(),
        ensures
            out@ == enc_ticket(self@),
    {
        let mut out: Vec<u8> = Vec::new();
        push_topic(&mut out, self.topic);
        push_be16(&mut out, self.nodes.len() as u16);
        let ghost header = out@;
        proof {
            assert(self@.nodes.skip(0) =~= self@.nodes);
        }
        let cnt = self.nodes.len();
        let mut i: usize = 0;
        while i < cnt
            invariant
                self.wf(),
                cnt == self.nodes@.len(),
                i <= cnt,
                out@ + enc_node_list(self@.nodes.skip(i as int)) == header + enc_node_list(
                    self@.nodes,
                ),
            decreases cnt - i,
        {
            let ghost pre = out@;
            let ghost nn = self@.nodes.skip(i as int);
            proof {
                assert(nn[0] == self@.nodes[i as int]);
                assert(self@.nodes[i as int] == self.nodes@[i as int]@);
            }
            push_node(&mut out, &self.nodes[i]);
            proof {
                assert(nn.drop_first() =~= self@.nodes.skip(i as int + 1));
                assert(enc_node_list(nn) == enc_node(nn[0]) + enc_node_list(nn.drop_first()));
                seq_assoc(pre, enc_node(nn[0]), enc_node_list(nn.drop_first()));
            }
            i = i + 1;
        }
        proof {
            assert(self@.nodes.skip(cnt as int) =~= Seq::<NodeInfoView>::empty());
            assert(out@ + Seq::<u8>::empty() =~= out@);
            seq_assoc(Seq::<u8>::empty(), enc_topic(self@.topic), be16(self@.nodes.len() as u16));
            seq_empty_left(enc_topic(self@.topic));
            seq_assoc(
                Seq::<u8>::empty() + enc_topic(self@.topic),
                be16(self@.nodes.len() as u16),
                enc_node_list(self@.nodes),
            );
            assert(Seq::<u8>::empty() + out@ =~= out@);
        }
        out
    }
}

/// Reads one address at `off`, exactly as `dec_addr` says.
fn parse_addr(b: &[u8], off: usize) -> (r: Option<(Vec<u8>, usize)>)
    ensures
        match r {
            Some((a, o2)) => dec_addr(b@, off as int) == Some((a@, o2 as int)) && addr_wf(a@),
            None => dec_addr(b@, off as int) is None,
        },
{
    match parse_u16(b, off) {
        Some((n, o1)) => parse_bytes(b, o1, n as usize),
        None => None,
    }
}

/// Reads `k` addresses at `off`, exactly as `dec_addr_list` says.
fn parse_addr_list(b: &[u8], off: usize, k: u16) -> (r: Option<(Vec<Vec<u8>>, usize)>)
    ensures
        match r {
            Some((aa, o2)) => dec_addr_list(b@, off as int, k as nat) == Some(
                (aa@.map_values(|a: Vec<u8>| a@), o2 as int),
            ) && aa@.len() == k as int && (forall|i: int|
                0 <= i < aa@.len() ==> addr_wf(#[trigger] aa@[i]@)),
            None => dec_addr_list(b@, off as int, k as nat) is None,
        },
{
    let mut acc: Vec<Vec<u8>> = Vec::new();
    let mut cur = off;
    let mut i: u16 = 0;
    while i < k
        invariant
            i <= k,
            acc@.len() == i as int,
            forall|j: int| 0 <= j < acc@.len() ==> addr_wf(#[trigger] acc@[j]@),
            match dec_addr_list(b@, cur as int, (k - i) as nat) {
                Some((rest, end)) => dec_addr_list(b@, off as int, k as nat) == Some(
                    (acc@.map_values(|a: Vec<u8>| a@) + rest, end),
                ),
                None => dec_addr_list(b@, off as int, k as nat) is None,
            },
        decreases k - i,
    {
        let ghost acc_pre = acc@;
        match parse_addr(b, cur) {
            Some((a, o2)) => {
                acc.push(a);
                proof {
                    assert(acc@.map_values(|x: Vec<u8>| x@) =~= acc_pre.map_values(
                        |x: Vec<u8>| x@,
                    ) + seq![acc@[acc_pre.len() as int]@]);
                    match dec_addr_list(b@, o2 as int, (k - i - 1) as nat) {
                        Some((rest2, end2)) => {
                            seq_assoc(
                                acc_pre.map_values(|x: Vec<u8>| x@),
                                seq![a@],
                                rest2,
                            );
                        },
                        None => {},
                    }
                }
                cur = o2;
            },
            None => {
                return None;
            },
        }
        i = i + 1;
    }
    proof {
        assert(acc@.map_values(|a: Vec<u8>| a@) + Seq::<Seq<u8>>::empty() =~= acc@.map_values(
            |a: Vec<u8>| a@,
        ));
    }
    Some((acc, cur))
}

/// Reads one listed peer at `off`, exactly as `dec_node` says.
fn parse_node(b: &[u8], off: usize) -> (r: Option<(CompactNodeInfo, usize)>)
    ensures
        match r {
            Some((n, o2)) => dec_node(b@, off as int) == Some((n@, o2 as int)) && node_wf(n@),
            None => dec_node(b@, off as int) is None,
        },
{
    match parse_peer(b, off) {
        Some((p, o1)) => match parse_u16(b, o1) {
            Some((k, o2)) => match parse_addr_list(b, o2, k) {
                Some((aa, end)) => Some((CompactNodeInfo { node_id: p, direct_addresses: aa }, end)),
                None => None,
            },
            None => None,
        },
        None => None,
    }
}

impl Ticket {
    /// Reads a ticket back from its byte form, failing exactly on the
    /// inputs that `dec_ticket` rejects.
    pub fn from_bytes(bytes: &[u8]) -> (r: Result<Ticket, TicketError>)
        ensures
            match dec_ticket(bytes@) {
                Some(tv) => r matches Ok(t) && t@ == tv && t.wf(),
                None => r == Err::<Ticket, TicketError>(TicketError::Malformed),
            },
    {
        let (p, o1) = match parse_peer(bytes, 0) {
            Some((p, o1)) => (p, o1),
            None => {
                return Err(TicketError::Malformed);
            },
        };
        let topic = TopicId { w0: p.w0, w1: p.w1, w2: p.w2, w3: p.w3 };
        let (k, o2) = match parse_u16(bytes, o1) {
            Some((k, o2)) => (k, o2),
            None => {
                return Err(TicketError::Malformed);
            },
        };
        let mut acc: Vec<CompactNodeInfo> = Vec::new();
        let mut cur = o2;
        let mut i: u16 = 0;
        while i < k
            invariant
                i <= k,
                acc@.len() == i as int,
                dec_peer(bytes@, 0) == Some((p, o1 as int)),
                dec_u16(bytes@, o1 as int) == Some((k, o2 as int)),
                topic == (TopicId { w0: p.w0, w1: p.w1, w2: p.w2, w3: p.w3 }),
                forall|j: int| 0 <= j < acc@.len() ==> node_wf(#[trigger] acc@[j]@),
                match dec_node_list(bytes@, cur as int, (k - i) as nat) {
                    Some((rest, end)) => dec_node_list(bytes@, o2 as int, k as nat) == Some(
                        (acc@.map_values(|n: CompactNodeInfo| n@) + rest, end),
                    ),
                    None => dec_node_list(bytes@, o2 as int, k as nat) is None,
                },
            decreases k - i,
        {
            let ghost acc_pre = acc@;
            match parse_node(bytes, cur) {
                Some((n, o3)) => {
                    acc.push(n);
                    proof {
                        assert(acc@.map_values(|x: CompactNodeInfo| x@) =~= acc_pre.map_values(
                            |x: CompactNodeInfo| x@,
                        ) + seq![acc@[acc_pre.len() as int]@]);
                        match dec_node_list(bytes@, o3 as int, (k - i - 1) as nat) {
                            Some((rest2, end2)) => {
                                seq_assoc(
                                    acc_pre.map_values(|x: CompactNodeInfo| x@),
                                    seq![n@],
                                    rest2,
                                );
                            },
                            None => {},
                        }
                    }
                    cur = o3;
                },
                None => {
                    return Err(TicketError::Malformed);
                },
            }
            i = i + 1;
        }
        proof {
            assert(acc@.map_values(|n: CompactNodeInfo| n@) + Seq::<NodeInfoView>::empty()
                =~= acc@.map_values(|n: CompactNodeInfo| n@));
        }
        if cur == bytes.len() {
            Ok(Ticket { topic, nodes: acc })
        } else {
            Err(TicketError::Malformed)
        }
    }
}


/// The base64 text of a byte string, as the outside encoder produces
/// it.
pub uninterp spec fn b64_of(b: Seq<u8>) -> Seq<char>;

/// What base64 text decodes to, as the outside decoder determines it.
pub uninterp spec fn b64_dec_of(s: Seq<char>) -> Option<Seq<u8>>;

#[verifier::external_type_specification]
#[verifier::external_body]
pub struct ExDecodeError(data_encoding::DecodeError);

/// Relies on `data_encoding::Encoding::encode` with the URL-safe
/// unpadded base64 alphabet: the crate documents that encoding is
/// deterministic and that decoding gives the initial data back.  The
/// encoder rejects inputs longer than `usize::MAX / 512`.
#[verifier::external_body]
fn b64_encode(b: &Vec<u8>) -> (r: String)
    requires
        b@.len() <= usize::MAX / 512,
    ensures
        r@ == b64_of(b@),
        b64_dec_of(r@) == Some(b@),
{
    data_encoding::BASE64URL_NOPAD.encode(b.as_slice())
}

/// Relies on `data_encoding::Encoding::decode` with the URL-safe
/// unpadded base64 alphabet: deterministic, and it errors exactly on
/// input that is not valid for the encoding.
#[verifier::external_body]
fn b64_decode(s: &str) -> (r: Result<Vec<u8>, data_encoding::DecodeError>)
    ensures
        match r {
            Ok(v) => b64_dec_of(s@) == Some(v@),
            Err(_) => b64_dec_of(s@) is None,
        },
{
    data_encoding::BASE64URL_NOPAD.decode(s.as_bytes())
}

/// A fresh address list with the same bytes.
fn clone_addrs(aa: &Vec<Vec<u8>>) -> (r: Vec<Vec<u8>>)
    ensures
        r@.map_values(|a: Vec<u8>| a@) == aa@.map_values(|a: Vec<u8>| a@),
{
    let mut r: Vec<Vec<u8>> = Vec::new();
    let mut i: usize = 0;
    while i < aa.len()
        invariant
            i <= aa@.len(),
            r@.len() == i,
            forall|j: int| 0 <= j < i ==> r@[j]@ == #[trigger] aa@[j]@,
        decreases aa@.len() - i,
    {
        let mut a: Vec<u8> = Vec::new();
        let src = &aa[i];
        let mut k: usize = 0;
        while k < src.len()
            invariant
                k <= src@.len(),
                a@ == src@.take(k as int),
            decreases src@.len() - k,
        {
            a.push(src[k]);
            proof {
                assert(src@.take(k as int).push(src@[k as int]) =~= src@.take(k as int + 1));
            }
            k = k + 1;
        }
        proof {
            assert(src@.take(src@.len() as int) =~= src@);
        }
        r.push(a);
        i = i + 1;
    }
    proof {
        assert(r@.map_values(|a: Vec<u8>| a@) =~= aa@.map_values(|a: Vec<u8>| a@));
    }
    r
}

/// A fresh ticket with the same fields.
pub fn clone_ticket(t: &Ticket) -> (r: Ticket)
    ensures
        r@ == t@,
{
    let mut nodes: Vec<CompactNodeInfo> = Vec::new();
    let mut i: usize = 0;
    while i < t.nodes.len()
        invariant
            i <= t.nodes@.len(),
            nodes@.len() == i,
            forall|j: int| 0 <= j < i ==> nodes@[j]@ == #[trigger] t.nodes@[j]@,
        decreases t.nodes@.len() - i,
    {
        let n = &t.nodes[i];
        nodes.push(CompactNodeInfo {
            node_id: n.node_id,
            direct_addresses: clone_addrs(&n.direct_addresses),
        });
        i = i + 1;
    }
    let r = Ticket { topic: t.topic, nodes };
    proof {
        assert(r@.nodes =~= t@.nodes);
    }
    r
}

impl Ticket {
    /// The portable text form of this ticket: the base64 of its byte
    /// form.
    pub fn to_text(&self) -> (r: Result<String, TicketError>)
        requires
            self.wf(),
        ensures
            match r {
                Ok(s) => s@ == b64_of(enc_ticket(self@)) && b64_dec_of(s@) == Some(
                    enc_ticket(self@),
                ),
                Err(e) => e == TicketError::TooLarge && enc_ticket(self@).len() > usize::MAX
                    / 512,
            },
    {
        let bytes = self.to_bytes();
        if bytes.len() <= usize::MAX / 512 {
            Ok(b64_encode(&bytes))
        } else {
            Err(TicketError::TooLarge)
        }
    }

    /// Reads a ticket from its text form: base64, then the byte form.
    pub fn from_text(s: &str) -> (r: Result<Ticket, TicketError>)
        ensures
            match b64_dec_of(s@) {
                Some(bytes) => match dec_ticket(bytes) {
                    Some(tv) => r matches Ok(t) && t@ == tv && t.wf(),
                    None => r == Err::<Ticket, TicketError>(TicketError::Malformed),
                },
                None => r == Err::<Ticket, TicketError>(TicketError::BadEncoding),
            },
    {
        match b64_decode(s) {
            Ok(bytes) => Ticket::from_bytes(bytes.as_slice()),
            Err(_) => Err(TicketError::BadEncoding),
        }
    }
}

/// Ticket round trip through the text form: text that the encoder
/// produced for a well-formed ticket decodes to that ticket, in all
/// fields.
pub proof fn lemma_ticket_text_roundtrip(t: TicketView, s: Seq<char>)
    requires
        ticket_wf(t),
        b64_dec_of(s) == Some(enc_ticket(t)),
    ensures
        b64_dec_of(s) matches Some(bytes) && dec_ticket(bytes) == Some(t),
{
    lemma_ticket_roundtrip(t);
}

} // verus!
