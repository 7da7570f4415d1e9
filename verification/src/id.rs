//! Request/response correlation identifiers.
//!
//! An identifier is either a 64-bit unsigned number or a text. Fresh
//! identifiers come from a dedicated generator object holding a counter
//! that starts at one; both flavours draw from the same sequence, so no
//! two draws ever carry the same underlying counter value.

use vstd::prelude::*;
use crate::text::{dec_digits, push_dec_digits, chars_to_string};

verus! {

/// Spec view of an identifier.
pub enum IdView {
    Number(u64),
    Text(Seq<char>),
}

/// A JSON-RPC identifier: a number or a text.
#[derive(Debug, Clone, PartialEq, Eq, Hash)]
pub enum Id {
    /// A numeric identifier.
    Number(u64),
    /// A textual identifier.
    Text(String),
}

impl DeepView for Id {
    type V = IdView;

    open spec fn deep_view(&self) -> IdView {
        match self {
            Id::Number(n) => IdView::Number(*n),
            Id::Text(s) => IdView::Text(s@),
        }
    }
}

/// The source of fresh identifiers: a counter that starts at one and
/// moves forward by one at each draw.
pub struct IdGenerator {
    counter: u64,
}

impl IdGenerator {
    /// The next counter value to be handed out.
    pub closed spec fn counter(&self) -> u64 {
        self.counter
    }

    /// A fresh generator, created once at process start.
    pub fn new() -> (r: IdGenerator)
        ensures
            r.counter() == 1,
    {
        IdGenerator { counter: 1 }
    }
}

/// The text of the identifier drawn at counter value `n`.
pub open spec fn id_text(n: u64) -> Seq<char> {
    seq!['i', 'd', '-'] + dec_digits(n as nat)
}

impl Id {
    /// Draws a fresh numeric identifier: the counter's current value,
    /// which afterwards is spent.
    pub fn next_number(g: &mut IdGenerator) -> (r: Id)
        requires
            old(g).counter() < u64::MAX,
        ensures
            final(g).counter() == old(g).counter() + 1,
            r == Id::Number(old(g).counter()),
    {
        let n = g.counter;
        g.counter = n + 1;
        Id::Number(n)
    }

    /// Draws a fresh textual identifier `id-{n}` from the same sequence.
    pub fn next_string(g: &mut IdGenerator) -> (r: Id)
        requires
            old(g).counter() < u64::MAX,
        ensures
            final(g).counter() == old(g).counter() + 1,
            r.deep_view() == IdView::Text(id_text(old(g).counter())),
    {
        let n = g.counter;
        g.counter = n + 1;
        let mut cs: Vec<char> = Vec::new();
        cs.push('i');
        cs.push('d');
        cs.push('-');
        push_dec_digits(&mut cs, n);
        proof {
            assert(cs@ =~= id_text(n));
        }
        Id::Text(chars_to_string(&cs))
    }
}

impl Id {
    /// A structural copy of the identifier.
    pub fn clone_id(&self) -> (r: Id)
        ensures
            r == *self,
    {
        match self {
            Id::Number(n) => Id::Number(*n),
            Id::Text(s) => Id::Text(s.clone()),
        }
    }
}

impl From<u64> for Id {
    fn from(value: u64) -> (r: Id) {
        Id::Number(value)
    }
}

impl vstd::std_specs::convert::FromSpecImpl<u64> for Id {
    open spec fn obeys_from_spec() -> bool {
        true
    }

    open spec fn from_spec(v: u64) -> Id {
        Id::Number(v)
    }
}

impl From<String> for Id {
    fn from(value: String) -> (r: Id) {
        Id::Text(value)
    }
}

impl vstd::std_specs::convert::FromSpecImpl<String> for Id {
    open spec fn obeys_from_spec() -> bool {
        true
    }

    open spec fn from_spec(v: String) -> Id {
        Id::Text(v)
    }
}

/// Draws at distinct counter values give distinct identifiers, whichever
/// flavour each draw took. Together with the generator's contract — each
/// draw returns the current counter value and moves the counter forward —
/// any number of draws from one generator yield pairwise distinct
/// identifiers within each flavour, and pairwise distinct underlying
/// counter values across both.
pub proof fn lemma_fresh_ids_distinct(n1: u64, n2: u64)
    requires
        n1 != n2,
    ensures
        Id::Number(n1) != Id::Number(n2),
        id_text(n1) != id_text(n2),
{
    crate::roundtrip::lemma_valf_dec_digits(n1 as nat);
    crate::roundtrip::lemma_valf_dec_digits(n2 as nat);
    let d1 = dec_digits(n1 as nat);
    let d2 = dec_digits(n2 as nat);
    if id_text(n1) == id_text(n2) {
        assert(id_text(n1).len() == 3 + d1.len());
        assert(id_text(n2).len() == 3 + d2.len());
        assert(d1.len() == d2.len());
        assert forall|k: int| 0 <= k < d1.len() implies d1[k] == d2[k] by {
            assert(id_text(n1)[3 + k] == d1[k]);
            assert(id_text(n2)[3 + k] == d2[k]);
        }
        assert(d1 =~= d2);
    }
}

} // verus!
