//! The peers that an agent has completed a handshake with.

use vstd::prelude::*;
use vstd::utf8::encode_utf8_decode_utf8;

use crate::bytes::holds_at;
use crate::identity::{AgentDescription, IdentityView};

verus! {

/// Some entry of `s` describes the same agent as `d`.
pub open spec fn holds_identity(s: Seq<IdentityView>, d: IdentityView) -> bool {
    exists|i: int| 0 <= i < s.len() && #[trigger] s[i].same_identity(d)
}

/// Exactly one entry of `s` describes the same agent as `d`.
pub open spec fn holds_once(s: Seq<IdentityView>, d: IdentityView) -> bool {
    exists|i: int|
        0 <= i < s.len() && #[trigger] s[i].same_identity(d) && forall|j: int|
            0 <= j < s.len() && j != i ==> !(#[trigger] s[j]).same_identity(d)
}

/// `s` after inserting `d`: the entry that describes the same agent, if
/// any, leaves its place, and `d` is appended.
pub open spec fn upserted(s: Seq<IdentityView>, d: IdentityView) -> Seq<IdentityView> {
    if holds_identity(s, d) {
        let i = choose|i: int| 0 <= i < s.len() && #[trigger] s[i].same_identity(d);
        s.remove(i).push(d)
    } else {
        s.push(d)
    }
}

/// No two entries of `s` describe the same agent.
pub open spec fn distinct_identities(s: Seq<IdentityView>) -> bool {
    forall|i: int, j: int|
        0 <= i < s.len() && 0 <= j < s.len() && i != j ==> !#[trigger] s[i].same_identity(
            #[trigger] s[j],
        )
}

/// The index of the first entry of `s` named `name`, if any.
pub open spec fn first_named(s: Seq<IdentityView>, name: Seq<char>, i: int) -> bool {
    &&& 0 <= i < s.len()
    &&& s[i].name == name
    &&& forall|j: int| 0 <= j < i ==> #[trigger] s[j].name != name
}

/// An ordered collection of peer descriptions, most recently confirmed
/// last, in which no two entries describe the same agent.
pub struct PeerDirectory {
    entries: Vec<AgentDescription>,
}

impl View for PeerDirectory {
    type V = Seq<IdentityView>;

    closed spec fn view(&self) -> Seq<IdentityView> {
        self.entries@.map_values(|d: AgentDescription| d@)
    }
}

impl PeerDirectory {
    /// No two entries describe the same agent, and each is well formed.
    pub open spec fn wf(&self) -> bool {
        &&& distinct_identities(self@)
        &&& forall|i: int| 0 <= i < self@.len() ==> #[trigger] self@[i].wf()
    }

    /// An empty directory.
    pub fn new() -> (r: PeerDirectory)
        ensures
            r@ == Seq::<IdentityView>::empty(),
            r.wf(),
    {
        let r = PeerDirectory { entries: Vec::new() };
        assert(r@ =~= Seq::<IdentityView>::empty());
        r
    }

    /// Number of entries.
    pub fn len(&self) -> (r: usize)
        ensures
            r == self@.len(),
    {
        self.entries.len()
    }

    /// The entry at index `i`.
    pub fn get(&self, i: usize) -> (r: &AgentDescription)
        requires
            i < self@.len(),
        ensures
            r@ == self@[i as int],
    {
        &self.entries[i]
    }

    /// The index of the entry that describes the same agent as `d`, if any.
    pub fn position(&self, d: &AgentDescription) -> (r: Option<usize>)
        ensures
            match r {
                Some(i) => i < self@.len() && self@[i as int].same_identity(d@),
                None => !holds_identity(self@, d@),
            },
    {
        let mut i: usize = 0;
        while i < self.entries.len()
            invariant
                i <= self@.len(),
                self@.len() == self.entries@.len(),
                forall|j: int| 0 <= j < i ==> !(#[trigger] self@[j]).same_identity(d@),
            decreases self@.len() - i,
        {
            if self.entries[i].same_identity(d) {
                return Some(i);
            }
            i = i + 1;
        }
        None
    }

    /// Whether some entry describes the same agent as `d`.
    pub fn contains(&self, d: &AgentDescription) -> (r: bool)
        ensures
            r == holds_identity(self@, d@),
    {
        self.position(d).is_some()
    }

    /// The index of the first entry named `name`, if any.
    pub fn find_by_name(&self, name: &str) -> (r: Option<usize>)
        ensures
            match r {
                Some(i) => first_named(self@, name@, i as int),
                None => forall|j: int| 0 <= j < self@.len() ==> #[trigger] self@[j].name != name@,
            },
    {
        let mut i: usize = 0;
        while i < self.entries.len()
            invariant
                i <= self@.len(),
                self@.len() == self.entries@.len(),
                forall|j: int| 0 <= j < i ==> #[trigger] self@[j].name != name@,
            decreases self@.len() - i,
        {
            if same_text(self.entries[i].name(), name) {
                return Some(i);
            }
            i = i + 1;
        }
        None
    }

    /// Inserts `d`, replacing the entry that describes the same agent if
    /// there is one: that entry leaves its place and `d` is appended. Returns
    /// the index of the entry that was replaced.
    pub fn upsert(&mut self, d: AgentDescription) -> (r: Option<usize>)
        requires
            old(self).wf(),
        ensures
            final(self).wf(),
            match r {
                Some(i) => {
                    &&& i < old(self)@.len()
                    &&& old(self)@[i as int].same_identity(d@)
                    &&& final(self)@ == old(self)@.remove(i as int).push(d@)
                },
                None => {
                    &&& !holds_identity(old(self)@, d@)
                    &&& final(self)@ == old(self)@.push(d@)
                },
            },
            final(self)@.len() == old(self)@.len() + if r is Some { 0int } else { 1int },
            final(self)@ == upserted(old(self)@, d@),
            final(self)@.last() == d@,
            holds_once(final(self)@, d@),
    {
        proof {
            use_type_invariant(&d);
        }
        let ghost s = self@;
        let found = self.position(&d);
        match found {
            Some(i) => {
                self.entries.remove(i);
                self.entries.push(d);
                assert(self@ =~= s.remove(i as int).push(d@));
                proof {
                    let c = choose|c: int| 0 <= c < s.len() && #[trigger] s[c].same_identity(d@);
                    if c != i as int {
                        assert(!s[c].same_identity(s[i as int]));
                    }
                }
            },
            None => {
                self.entries.push(d);
                assert(self@ =~= s.push(d@));
            },
        }
        proof {
            lemma_upserted(s, d@);
        }
        found
    }
}

/// Inserting `d` into distinct identities keeps them distinct; `d` is then
/// the last entry, held exactly once, and the count grows by one only
/// where no entry described the same agent.
pub proof fn lemma_upserted(s: Seq<IdentityView>, d: IdentityView)
    requires
        distinct_identities(s),
    ensures
        distinct_identities(upserted(s, d)),
        holds_once(upserted(s, d), d),
        upserted(s, d).last() == d,
        upserted(s, d).len() == s.len() + if holds_identity(s, d) { 0int } else { 1int },
{
    let t = upserted(s, d);
    if holds_identity(s, d) {
        let k = choose|i: int| 0 <= i < s.len() && #[trigger] s[i].same_identity(d);
        assert forall|a: int| 0 <= a < t.len() - 1 implies #[trigger] t[a] == s[if a < k {
            a
        } else {
            a + 1
        }] by {}
        assert forall|a: int, b: int|
            0 <= a < t.len() && 0 <= b < t.len() && a != b implies !#[trigger] t[a].same_identity(
            #[trigger] t[b],
        ) by {
            let a1 = if a < k { a } else { a + 1 };
            let b1 = if b < k { b } else { b + 1 };
            if a < t.len() - 1 && b < t.len() - 1 {
                assert(t[a] == s[a1] && t[b] == s[b1]);
            } else if a < t.len() - 1 {
                assert(t[a] == s[a1]);
                assert(!s[a1].same_identity(s[k]));
            } else {
                assert(t[b] == s[b1]);
                assert(!s[b1].same_identity(s[k]));
            }
        }
    } else {
        assert(forall|a: int| 0 <= a < s.len() ==> !(#[trigger] s[a]).same_identity(d));
    }
    assert(t[t.len() - 1].same_identity(d));
    lemma_distinct_holds_once(t, t.len() - 1, d);
}

/// In a sequence of distinct identities, an entry that describes `d` is
/// the only one.
pub proof fn lemma_distinct_holds_once(s: Seq<IdentityView>, i: int, d: IdentityView)
    requires
        distinct_identities(s),
        0 <= i < s.len(),
        s[i].same_identity(d),
    ensures
        holds_once(s, d),
{
    assert forall|j: int| 0 <= j < s.len() && j != i implies !(#[trigger] s[j]).same_identity(d) by {
        assert(!s[j].same_identity(s[i]));
    }
}

/// Whether two texts are the same.
pub fn same_text(a: &str, b: &str) -> (r: bool)
    ensures
        r == (a@ == b@),
{
    let x = a.as_bytes();
    let y = b.as_bytes();
    let same = x.len() == y.len() && holds_at(x, 0, y);
    proof {
        encode_utf8_decode_utf8(a@);
        encode_utf8_decode_utf8(b@);
        if x@.len() == y@.len() {
            assert(x@.subrange(0, y@.len() as int) == x@);
        }
    }
    same
}

} // verus!
