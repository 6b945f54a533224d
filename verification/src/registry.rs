//! The short-code registry: maps 8-character human-typable codes to
//! tickets.
//!
//! The registry itself is plain data; the surrounding process loads it
//! from and saves it to whatever store it keeps, such as a file in the
//! user's home directory.

use vstd::prelude::*;
use crate::ticket::{Ticket, TicketView, TicketError, clone_ticket, b64_dec_of, dec_ticket};
use crate::wire::clone_bytes;
use vstd::string::StringSliceAdditionalSpecFns;

verus! {

/// Length of a short code.
pub const CODE_LEN: usize = 8;

/// How many random codes are tried before giving up on finding a free
/// one.
pub const MAX_CODE_ATTEMPTS: u32 = 64;

/// Whether `b` is a short-code byte: a decimal digit or a lowercase
/// letter.
pub open spec fn code_byte_ok(b: u8) -> bool {
    (48 <= b <= 57) || (97 <= b <= 122)
}

/// Whether `c` has the shape of a short code.
pub open spec fn short_code_wf(c: Seq<u8>) -> bool {
    c.len() == CODE_LEN && forall|i: int| 0 <= i < c.len() ==> code_byte_ok(#[trigger] c[i])
}

/// The ticket registered under `code`, scanning entries in order.
pub open spec fn lookup(entries: Seq<(Seq<u8>, TicketView)>, code: Seq<u8>) -> Option<TicketView>
    decreases entries.len(),
{
    if entries.len() == 0 {
        None
    } else if entries[0].0 == code {
        Some(entries[0].1)
    } else {
        lookup(entries.drop_first(), code)
    }
}

/// When no entry holds `code`, the lookup finds nothing, and the other
/// way round.
pub proof fn lemma_lookup_none(entries: Seq<(Seq<u8>, TicketView)>, code: Seq<u8>)
    ensures
        lookup(entries, code) is None <==> forall|i: int|
            0 <= i < entries.len() ==> (#[trigger] entries[i]).0 != code,
    decreases entries.len(),
{
    if entries.len() > 0 {
        lemma_lookup_none(entries.drop_first(), code);
        assert forall|i: int|
            1 <= i < entries.len() implies entries.drop_first()[i - 1] == entries[i] by {}
    }
}

/// The registry: registered codes with their tickets, in insertion
/// order, each code registered once.
pub struct TicketRegistry {
    entries: Vec<(Vec<u8>, Ticket)>,
}

impl View for TicketRegistry {
    type V = Seq<(Seq<u8>, TicketView)>;

    closed spec fn view(&self) -> Seq<(Seq<u8>, TicketView)> {
        self.entries@.map_values(|e: (Vec<u8>, Ticket)| (e.0@, e.1@))
    }
}

/// Whether the bytes of `a` equal `b`.
fn bytes_eq(a: &Vec<u8>, b: &[u8]) -> (r: bool)
    ensures
        r == (a@ == b@),
{
    if a.len() != b.len() {
        proof {
            assert(a@ != b@);
        }
        return false;
    }
    let mut i: usize = 0;
    while i < a.len()
        invariant
            a@.len() == b@.len(),
            i <= a@.len(),
            forall|j: int| 0 <= j < i ==> a@[j] == b@[j],
        decreases a@.len() - i,
    {
        if a[i] != b[i] {
            return false;
        }
        i = i + 1;
    }
    proof {
        assert(a@ =~= b@);
    }
    true
}

impl TicketRegistry {
    /// Each code is registered at most once.
    pub open spec fn wf(&self) -> bool {
        forall|i: int, j: int|
            0 <= i < j < self@.len() ==> (#[trigger] self@[i]).0 != (#[trigger] self@[j]).0
    }

    /// An empty registry.
    pub fn new() -> (r: TicketRegistry)
        ensures
            r.wf(),
            r@ == Seq::<(Seq<u8>, TicketView)>::empty(),
    {
        let r = TicketRegistry { entries: Vec::new() };
        proof {
            assert(r@ =~= Seq::<(Seq<u8>, TicketView)>::empty());
        }
        r
    }

    /// How many codes are registered.
    pub fn len(&self) -> (n: usize)
        ensures
            n == self@.len(),
    {
        self.entries.len()
    }

    /// The ticket registered under `code`, if any.
    pub fn get_ticket(&self, code: &[u8]) -> (r: Option<&Ticket>)
        ensures
            match r {
                Some(t) => lookup(self@, code@) == Some(t@),
                None => lookup(self@, code@) is None,
            },
    {
        proof {
            assert(self@.skip(0) =~= self@);
        }
        let mut i: usize = 0;
        while i < self.entries.len()
            invariant
                i <= self@.len(),
                lookup(self@, code@) == lookup(self@.skip(i as int), code@),
            decreases self@.len() - i,
        {
            let ghost tail = self@.skip(i as int);
            proof {
                assert(tail[0] == self@[i as int]);
            }
            if bytes_eq(&self.entries[i].0, code) {
                return Some(&self.entries[i].1);
            }
            proof {
                assert(tail.drop_first() =~= self@.skip(i as int + 1));
            }
            i = i + 1;
        }
        proof {
            assert(self@.skip(self@.len() as int) =~= Seq::<(Seq<u8>, TicketView)>::empty());
        }
        None
    }

    /// Registers `ticket` under `code` if the code is free and has the
    /// right shape; otherwise leaves the registry unchanged.
    pub fn insert(&mut self, code: Vec<u8>, ticket: Ticket) -> (r: bool)
        requires
            old(self).wf(),
        ensures
            final(self).wf(),
            r == (short_code_wf(code@) && lookup(old(self)@, code@) is None),
            r ==> final(self)@ == old(self)@.push((code@, ticket@)),
            !r ==> final(self)@ == old(self)@,
    {
        if code.len() != CODE_LEN {
            proof {
                assert(!short_code_wf(code@));
            }
            return false;
        }
        let mut i: usize = 0;
        while i < CODE_LEN
            invariant
                self.wf(),
                *self == *old(self),
                code@.len() == CODE_LEN,
                i <= CODE_LEN,
                forall|j: int| 0 <= j < i ==> code_byte_ok(#[trigger] code@[j]),
            decreases CODE_LEN - i,
        {
            let b = code[i];
            if !((48 <= b && b <= 57) || (97 <= b && b <= 122)) {
                return false;
            }
            i = i + 1;
        }
        if self.get_ticket(code.as_slice()).is_some() {
            return false;
        }
        let ghost pre = self@;
        self.entries.push((code, ticket));
        proof {
            assert(self@ =~= pre.push((code@, ticket@)));
            lemma_lookup_none(pre, code@);
            assert forall|i: int, j: int|
                0 <= i < j < self@.len() implies (#[trigger] self@[i]).0 != (
            #[trigger] self@[j]).0 by {
                if j < pre.len() {
                } else {
                    assert(self@[j] == (code@, ticket@));
                }
            }
        }
        true
    }

    /// Draws random candidate codes until one is free, up to
    /// `MAX_CODE_ATTEMPTS` tries.  A returned code has the short-code
    /// shape and is not yet registered.
    pub fn generate_short_code(&self) -> (r: Option<Vec<u8>>)
        ensures
            match r {
                Some(c) => short_code_wf(c@) && lookup(self@, c@) is None,
                None => true,
            },
    {
        let alphabet: [u8; 36] = [
            48, 49, 50, 51, 52, 53, 54, 55, 56, 57, 97, 98, 99, 100, 101, 102, 103, 104, 105,
            106, 107, 108, 109, 110, 111, 112, 113, 114, 115, 116, 117, 118, 119, 120, 121, 122,
        ];
        proof {
            assert(forall|i: int| 0 <= i < 36 ==> code_byte_ok(#[trigger] alphabet@[i]));
        }
        let mut attempt: u32 = 0;
        while attempt < MAX_CODE_ATTEMPTS
            invariant
                forall|i: int| 0 <= i < 36 ==> code_byte_ok(#[trigger] alphabet@[i]),
            decreases MAX_CODE_ATTEMPTS - attempt,
        {
            let mut code: Vec<u8> = Vec::new();
            let mut j: usize = 0;
            while j < CODE_LEN
                invariant
                    forall|i: int| 0 <= i < 36 ==> code_byte_ok(#[trigger] alphabet@[i]),
                    j <= CODE_LEN,
                    code@.len() == j,
                    forall|i: int| 0 <= i < j ==> code_byte_ok(#[trigger] code@[i]),
                decreases CODE_LEN - j,
            {
                let draw = rand::random::<u32>();
                let idx = (draw % 36) as usize;
                code.push(alphabet[idx]);
                j = j + 1;
            }
            if self.get_ticket(code.as_slice()).is_none() {
                return Some(code);
            }
            attempt = attempt + 1;
        }
        None
    }

    /// Registers `ticket` under a freshly drawn free short code and
    /// returns the code; fails only if no free code was drawn within
    /// `MAX_CODE_ATTEMPTS` tries, leaving the registry unchanged.
    pub fn register_ticket(&mut self, ticket: Ticket) -> (r: Result<Vec<u8>, TicketError>)
        requires
            old(self).wf(),
        ensures
            final(self).wf(),
            match r {
                Ok(code) => short_code_wf(code@) && lookup(old(self)@, code@) is None
                    && final(self)@ == old(self)@.push((code@, ticket@)),
                Err(e) => e == TicketError::CodesExhausted && final(self)@ == old(self)@,
            },
    {
        match self.generate_short_code() {
            Some(code) => {
                let returned = clone_bytes(&code);
                let ok = self.insert(code, ticket);
                assert(ok);
                Ok(returned)
            },
            None => Err(TicketError::CodesExhausted),
        }
    }
}

impl Ticket {
    /// Registers this ticket in `registry` under a fresh short code and
    /// returns the code; the surrounding process persists the registry.
    pub fn to_short_code(&self, registry: &mut TicketRegistry) -> (r: Result<Vec<u8>, TicketError>)
        requires
            old(registry).wf(),
        ensures
            final(registry).wf(),
            match r {
                Ok(code) => short_code_wf(code@) && lookup(old(registry)@, code@) is None
                    && final(registry)@ == old(registry)@.push((code@, self@)),
                Err(e) => e == TicketError::CodesExhausted && final(registry)@ == old(registry)@,
            },
    {
        registry.register_ticket(clone_ticket(self))
    }

    /// Resolves either form of an invite: a short input that the
    /// registry knows yields the registered ticket; anything else is
    /// read as the full text form.
    pub fn from_code_or_full(registry: &TicketRegistry, input: &str) -> (r: Result<
        Ticket,
        TicketError,
    >)
        ensures
            (input.spec_bytes().len() <= CODE_LEN && lookup(registry@, input.spec_bytes())
                is Some) ==> (r matches Ok(t) && lookup(registry@, input.spec_bytes()) == Some(
                t@,
            )),
            !(input.spec_bytes().len() <= CODE_LEN && lookup(registry@, input.spec_bytes())
                is Some) ==> (match b64_dec_of(input@) {
                Some(bytes) => match dec_ticket(bytes) {
                    Some(tv) => r matches Ok(t) && t@ == tv && t.wf(),
                    None => r == Err::<Ticket, TicketError>(TicketError::Malformed),
                },
                None => r == Err::<Ticket, TicketError>(TicketError::BadEncoding),
            }),
    {
        let input_bytes = input.as_bytes();
        if input_bytes.len() <= CODE_LEN {
            match registry.get_ticket(input_bytes) {
                Some(t) => {
                    return Ok(clone_ticket(t));
                },
                None => {},
            }
        }
        Ticket::from_text(input)
    }
}

} // verus!
