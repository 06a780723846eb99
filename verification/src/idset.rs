//! Sets of identities: the signers of a wallet, the approvers of a message.

use crate::identity::Identity;
use crate::store::{keys_of, lemma_map_domain, KeyedStore};
use vstd::prelude::*;

verus! {

/// A finite set of identities.
pub struct IdentitySet {
    members: KeyedStore<Identity, ()>,
}

impl View for IdentitySet {
    type V = Set<Seq<u8>>;

    closed spec fn view(&self) -> Set<Seq<u8>> {
        self.members@.dom()
    }
}

impl IdentitySet {
    /// The members of the set, in storage order.
    pub closed spec fn members(&self) -> Seq<Seq<u8>> {
        keys_of(self.members.entries())
    }

    /// The set is finite and holds exactly its members.
    pub proof fn lemma_members(&self)
        ensures
            self@.finite(),
            self@ == self.members().to_set(),
    {
        self.members.lemma_view();
        lemma_map_domain(self.members.entries());
    }

    /// The empty set.
    pub fn new() -> (r: IdentitySet)
        ensures
            r@ == Set::<Seq<u8>>::empty(),
    {
        let r = IdentitySet { members: KeyedStore::new() };
        r
    }

    /// The number of members. No member is stored twice.
    pub fn len(&self) -> (n: usize)
        ensures
            n == self@.len(),
            n == self.members().len(),
            self@.finite(),
            self.members().no_duplicates(),
            self.members().to_set() == self@,
    {
        proof {
            self.lemma_members();
            lemma_map_domain(self.members.entries());
        }
        self.members.len()
    }

    /// The member at place `i`.
    pub fn member_at(&self, i: usize) -> (id: &Identity)
        requires
            i < self.members().len(),
        ensures
            id@ == self.members()[i as int],
            self@.contains(id@),
    {
        self.members.key_at(i)
    }

    /// Whether `id` is a member.
    pub fn contains(&self, id: &Identity) -> (r: bool)
        ensures
            r == self@.contains(id@),
    {
        self.members.contains_key(id)
    }

    /// Adds `id`; nothing changes if it is a member already.
    pub fn insert(&mut self, id: Identity)
        ensures
            final(self)@ == old(self)@.insert(id@),
    {
        if !self.members.contains_key(&id) {
            self.members.insert(id, ());
        }
    }

    /// Removes `id`; nothing changes if it is no member.
    pub fn remove(&mut self, id: &Identity)
        ensures
            final(self)@ == old(self)@.remove(id@),
    {
        let _ = self.members.remove(id);
    }

    /// The members, each once, in storage order.
    pub fn to_vec(&self) -> (r: Vec<Identity>)
        ensures
            r.deep_view() == self.members(),
            r.deep_view().no_duplicates(),
            r.deep_view().to_set() == self@,
    {
        let n = self.len();
        let mut r: Vec<Identity> = Vec::new();
        let mut i: usize = 0;
        while i < n
            invariant
                n == self.members().len(),
                i <= n,
                r@.len() == i,
                forall|j: int| 0 <= j < i ==> (#[trigger] r@[j])@ == self.members()[j],
            decreases n - i,
        {
            r.push(self.member_at(i).clone());
            i = i + 1;
        }
        r
    }
}

} // verus!
