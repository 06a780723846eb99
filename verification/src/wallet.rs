//! A wallet: its signers, its approval threshold, the messages that await
//! approval, and the annotations attached to them.
//!
//! A message is *pending* from the moment it is proposed until it is retired.
//! It is *signable* while it is pending and its approvals number at least the
//! threshold.

use crate::error::WalletError;
use crate::identity::Identity;
use crate::idset::IdentitySet;
use crate::store::{
    has_key, keys_of, lemma_entry_in_map, lemma_map_domain, position, unique_keys, KeyedStore,
};
use vstd::prelude::*;

verus! {

/// The mathematical content of an [`Annotation`].
pub struct AnnotationView {
    pub text: Seq<char>,
    pub author: Seq<u8>,
}

/// A note attached to a pending message, with the identity that attached it.
pub struct Annotation {
    text: String,
    author: Identity,
}

impl View for Annotation {
    type V = AnnotationView;

    closed spec fn view(&self) -> AnnotationView {
        AnnotationView { text: self.text@, author: self.author@ }
    }
}

/// The mathematical content of a [`Wallet`].
pub struct WalletView {
    /// Who may propose and approve.
    pub signers: Set<Seq<u8>>,
    /// How many approvals make a message signable.
    pub threshold: u8,
    /// For each pending message, who has approved it.
    pub pending: Map<Seq<u8>, Set<Seq<u8>>>,
    /// For each annotated message, its annotation.
    pub metadata: Map<Seq<u8>, AnnotationView>,
}

impl WalletView {
    /// A wallet without signers, threshold, messages or annotations.
    pub open spec fn empty() -> WalletView {
        WalletView {
            signers: Set::empty(),
            threshold: 0,
            pending: Map::empty(),
            metadata: Map::empty(),
        }
    }

    /// Every set of identities in the wallet is finite.
    pub open spec fn well_formed(self) -> bool {
        &&& self.signers.finite()
        &&& forall|m: Seq<u8>| self.pending.contains_key(m) ==> (#[trigger] self.pending[m]).finite()
    }

    /// Whether `threshold` can be met by the signers there are.
    pub open spec fn accepts_threshold(self, threshold: u8) -> bool {
        1 <= threshold <= self.signers.len()
    }

    /// Whether the wallet's own threshold can be met by its signers.
    pub open spec fn threshold_valid(self) -> bool {
        self.accepts_threshold(self.threshold)
    }

    /// Whether `message` is pending and has gathered enough approvals.
    pub open spec fn can_sign(self, message: Seq<u8>) -> bool {
        self.pending.contains_key(message) && self.pending[message].len() >= self.threshold
    }

    /// The messages that can be signed.
    pub open spec fn signable(self) -> Set<Seq<u8>> {
        Set::new(|m: Seq<u8>| self.can_sign(m))
    }

    /// The wallet with `id` among its signers.
    pub open spec fn add_signer(self, id: Seq<u8>) -> WalletView {
        WalletView { signers: self.signers.insert(id), ..self }
    }

    /// The wallet without `id` among its signers. The threshold stays as it is.
    pub open spec fn remove_signer(self, id: Seq<u8>) -> WalletView {
        WalletView { signers: self.signers.remove(id), ..self }
    }

    /// What setting the threshold to `threshold` reports.
    pub open spec fn set_threshold_outcome(self, threshold: u8) -> Result<(), WalletError> {
        if self.accepts_threshold(threshold) {
            Ok(())
        } else {
            Err(WalletError::ThresholdInvalid)
        }
    }

    /// The wallet after an attempt to set the threshold to `threshold`.
    pub open spec fn set_threshold(self, threshold: u8) -> WalletView {
        if self.accepts_threshold(threshold) {
            WalletView { threshold, ..self }
        } else {
            self
        }
    }

    /// What proposing `message` as `proposer` reports.
    pub open spec fn propose_outcome(self, message: Seq<u8>, proposer: Seq<u8>) -> Result<
        (),
        WalletError,
    > {
        if !self.signers.contains(proposer) {
            Err(WalletError::NotASigner)
        } else if self.pending.contains_key(message) {
            Err(WalletError::AlreadyQueued)
        } else {
            Ok(())
        }
    }

    /// The wallet after `proposer` tried to propose `message`: on success the
    /// message is pending with the proposer's approval.
    pub open spec fn propose(self, message: Seq<u8>, proposer: Seq<u8>) -> WalletView {
        if self.propose_outcome(message, proposer) is Ok {
            WalletView { pending: self.pending.insert(message, set![proposer]), ..self }
        } else {
            self
        }
    }

    /// What approving `message` as `approver` reports: on success, the number of
    /// approvals that the message then has.
    pub open spec fn approve_outcome(self, message: Seq<u8>, approver: Seq<u8>) -> Result<
        nat,
        WalletError,
    > {
        if !self.signers.contains(approver) {
            Err(WalletError::NotASigner)
        } else if !self.pending.contains_key(message) {
            Err(WalletError::NotQueued)
        } else if self.pending[message].contains(approver) {
            Err(WalletError::DuplicateApproval)
        } else {
            Ok(self.pending[message].len() + 1)
        }
    }

    /// The wallet after `approver` tried to approve `message`.
    pub open spec fn approve(self, message: Seq<u8>, approver: Seq<u8>) -> WalletView {
        if self.approve_outcome(message, approver) is Ok {
            WalletView {
                pending: self.pending.insert(message, self.pending[message].insert(approver)),
                ..self
            }
        } else {
            self
        }
    }

    /// The wallet without `message`: neither pending nor annotated.
    pub open spec fn retire(self, message: Seq<u8>) -> WalletView {
        WalletView {
            pending: self.pending.remove(message),
            metadata: self.metadata.remove(message),
            ..self
        }
    }

    /// What annotating `message` reports.
    pub open spec fn add_metadata_outcome(self, message: Seq<u8>) -> Result<(), WalletError> {
        if self.pending.contains_key(message) {
            Ok(())
        } else {
            Err(WalletError::NotQueued)
        }
    }

    /// The wallet after an attempt to annotate `message`: on success the
    /// annotation replaces any earlier one.
    pub open spec fn add_metadata(
        self,
        message: Seq<u8>,
        text: Seq<char>,
        author: Seq<u8>,
    ) -> WalletView {
        if self.pending.contains_key(message) {
            WalletView {
                metadata: self.metadata.insert(message, AnnotationView { text, author }),
                ..self
            }
        } else {
            self
        }
    }

    /// The annotation of `message` as `requester` may see it: signers see what
    /// there is, others see nothing.
    pub open spec fn visible_metadata(self, message: Seq<u8>, requester: Seq<u8>) -> Option<
        Seq<char>,
    > {
        if self.signers.contains(requester) && self.metadata.contains_key(message) {
            Some(self.metadata[message].text)
        } else {
            None
        }
    }
}

proof fn lemma_bytes_deep_view(bytes: Vec<u8>)
    ensures
        bytes.deep_view() == bytes@,
{
}

/// A multi-signature wallet.
pub struct Wallet {
    signers: IdentitySet,
    threshold: u8,
    pending: KeyedStore<Vec<u8>, IdentitySet>,
    metadata: KeyedStore<Vec<u8>, Annotation>,
}

impl View for Wallet {
    type V = WalletView;

    closed spec fn view(&self) -> WalletView {
        WalletView {
            signers: self.signers@,
            threshold: self.threshold,
            pending: self.pending@,
            metadata: self.metadata@,
        }
    }
}

impl Default for Wallet {
    fn default() -> (r: Wallet)
        ensures
            r@ == WalletView::empty(),
    {
        Wallet::new()
    }
}

impl Wallet {
    /// The view of every wallet is well formed.
    pub proof fn lemma_well_formed(&self)
        ensures
            self@.well_formed(),
    {
        self.signers.lemma_members();
        assert forall|m: Seq<u8>| self@.pending.contains_key(m) implies (#[trigger] self@.pending[m]).finite() by {
            self.pending.lemma_value_stored(m);
            let v = choose|v: IdentitySet| #[trigger] v.view() == self.pending@[m];
            v.lemma_members();
        }
    }

    /// A wallet without signers, with threshold 0.
    pub fn new() -> (r: Wallet)
        ensures
            r@ == WalletView::empty(),
    {
        Wallet {
            signers: IdentitySet::new(),
            threshold: 0,
            pending: KeyedStore::new(),
            metadata: KeyedStore::new(),
        }
    }

    /// The approval threshold.
    pub fn get_threshold(&self) -> (r: u8)
        ensures
            r == self@.threshold,
    {
        self.threshold
    }

    /// The signers, each once.
    pub fn get_signers(&self) -> (r: Vec<Identity>)
        ensures
            r.deep_view().no_duplicates(),
            r.deep_view().to_set() == self@.signers,
    {
        self.signers.to_vec()
    }

    /// Whether `id` is a signer.
    pub fn is_signer(&self, id: &Identity) -> (r: bool)
        ensures
            r == self@.signers.contains(id@),
    {
        self.signers.contains(id)
    }

    /// Makes `id` a signer; nothing changes if it is one already. The threshold
    /// is not touched.
    pub fn add_signer(&mut self, id: Identity)
        ensures
            final(self)@ == old(self)@.add_signer(id@),
    {
        self.signers.insert(id);
    }

    /// Removes `id` from the signers; nothing changes if it is none. The
    /// threshold is not touched, even where it then exceeds the number of
    /// signers.
    pub fn remove_signer(&mut self, id: &Identity)
        ensures
            final(self)@ == old(self)@.remove_signer(id@),
    {
        self.signers.remove(id);
    }

    /// Sets the threshold, which must be at least 1 and at most the number of
    /// signers; otherwise the wallet is left as it is.
    pub fn set_default_threshold(&mut self, threshold: u8) -> (r: Result<(), WalletError>)
        ensures
            r == old(self)@.set_threshold_outcome(threshold),
            final(self)@ == old(self)@.set_threshold(threshold),
            r is Ok ==> final(self)@.threshold_valid(),
    {
        if threshold >= 1 && threshold as usize <= self.signers.len() {
            self.threshold = threshold;
            Ok(())
        } else {
            Err(WalletError::ThresholdInvalid)
        }
    }

    /// Proposes `message`. The caller must be a signer and the message must not
    /// be pending; the caller's approval is recorded with it.
    pub fn propose_message(&mut self, caller: &Identity, message: Vec<u8>) -> (r: Result<
        (),
        WalletError,
    >)
        ensures
            r == old(self)@.propose_outcome(message@, caller@),
            final(self)@ == old(self)@.propose(message@, caller@),
    {
        if !self.signers.contains(caller) {
            return Err(WalletError::NotASigner);
        }
        if self.pending.contains_key(&message) {
            return Err(WalletError::AlreadyQueued);
        }
        let mut approvals = IdentitySet::new();
        approvals.insert(caller.clone());
        self.pending.insert(message, approvals);
        Ok(())
    }

    /// Records the caller's approval of `message`. The caller must be a signer,
    /// the message pending, and the caller must not have approved it before.
    /// Returns the number of approvals that the message then has.
    pub fn approve(&mut self, message: Vec<u8>, caller: &Identity) -> (r: Result<
        usize,
        WalletError,
    >)
        ensures
            match r {
                Ok(n) => old(self)@.approve_outcome(message@, caller@) == Ok::<nat, WalletError>(
                    n as nat,
                ),
                Err(e) => old(self)@.approve_outcome(message@, caller@) == Err::<nat, WalletError>(
                    e,
                ),
            },
            final(self)@ == old(self)@.approve(message@, caller@),
    {
        if !self.signers.contains(caller) {
            return Err(WalletError::NotASigner);
        }
        match self.pending.remove(&message) {
            None => {
                assert(self.pending@ =~= old(self).pending@);
                Err(WalletError::NotQueued)
            },
            Some(approvals) => {
                let mut approvals = approvals;
                if approvals.contains(caller) {
                    self.pending.insert(message, approvals);
                    assert(self.pending@ =~= old(self).pending@);
                    return Err(WalletError::DuplicateApproval);
                }
                proof {
                    approvals.lemma_members();
                }
                approvals.insert(caller.clone());
                let n = approvals.len();
                self.pending.insert(message, approvals);
                assert(self.pending@ =~= old(self).pending@.insert(
                    message@,
                    old(self).pending@[message@].insert(caller@),
                ));
                Ok(n)
            },
        }
    }

    /// Whether `message` is pending and has gathered enough approvals.
    pub fn can_sign(&self, message: &Vec<u8>) -> (r: bool)
        ensures
            r == self@.can_sign(message@),
    {
        match self.pending.get(message) {
            Some(approvals) => approvals.len() >= self.threshold as usize,
            None => false,
        }
    }

    /// The pending messages, each once.
    pub fn get_proposed_messages(&self) -> (r: Vec<Vec<u8>>)
        ensures
            r.deep_view().no_duplicates(),
            r.deep_view().to_set() == self@.pending.dom(),
    {
        let n = self.pending.len();
        let mut r: Vec<Vec<u8>> = Vec::new();
        let mut i: usize = 0;
        while i < n
            invariant
                n == self.pending.entries().len(),
                i <= n,
                r@.len() == i,
                forall|j: int| 0 <= j < i ==> (#[trigger] r@[j])@ == self.pending.entries()[j].0,
            decreases n - i,
        {
            r.push(self.pending.key_at(i).clone());
            i = i + 1;
        }
        proof {
            self.pending.lemma_view();
            lemma_map_domain(self.pending.entries());
            assert forall|j: int| 0 <= j < r@.len() implies r.deep_view()[j] == keys_of(
                self.pending.entries(),
            )[j] by {
                lemma_bytes_deep_view(r@[j]);
            }
            assert(r.deep_view() =~= keys_of(self.pending.entries()));
        }
        r
    }

    /// The messages that can be signed, each once.
    pub fn get_messages_to_sign(&self) -> (r: Vec<Vec<u8>>)
        ensures
            r.deep_view().no_duplicates(),
            r.deep_view().to_set() == self@.signable(),
    {
        let n = self.pending.len();
        let ghost entries = self.pending.entries();
        let mut r: Vec<Vec<u8>> = Vec::new();
        let ghost mut picked: Seq<int> = Seq::empty();
        let mut i: usize = 0;
        while i < n
            invariant
                entries == self.pending.entries(),
                unique_keys(entries),
                n == entries.len(),
                i <= n,
                picked.len() == r@.len(),
                forall|j: int|
                    0 <= j < picked.len() ==> 0 <= #[trigger] picked[j] < i && r@[j]@
                        == entries[picked[j]].0 && self@.can_sign(entries[picked[j]].0),
                forall|j: int, k: int| 0 <= j < k < picked.len() ==> picked[j] < picked[k],
                forall|x: int|
                    0 <= x < i && self@.can_sign((#[trigger] entries[x]).0) ==> picked.contains(x),
            decreases n - i,
        {
            let approvals = self.pending.value_at(i);
            proof {
                self.pending.lemma_view();
                lemma_entry_in_map(entries, i as int);
            }
            if approvals.len() >= self.threshold as usize {
                r.push(self.pending.key_at(i).clone());
                proof {
                    let before = picked;
                    picked = picked.push(i as int);
                    assert forall|x: int|
                        0 <= x < i + 1 && self@.can_sign((#[trigger] entries[x]).0) implies picked.contains(
                        x,
                    ) by {
                        if x < i {
                            let j = choose|j: int| 0 <= j < before.len() && before[j] == x;
                            assert(picked[j] == x);
                        } else {
                            assert(picked[before.len() as int] == x);
                        }
                    }
                }
            }
            i = i + 1;
        }
        proof {
            self.pending.lemma_view();
            let view = r.deep_view();
            assert forall|j: int| 0 <= j < view.len() implies view[j] == entries[picked[j]].0 by {
                lemma_bytes_deep_view(r@[j]);
            }
            assert(view.no_duplicates());
            assert forall|m: Seq<u8>| view.to_set().contains(m) <==> self@.signable().contains(m) by {
                if self@.can_sign(m) {
                    let x = position(entries, m);
                    let j = choose|j: int| 0 <= j < picked.len() && picked[j] == x;
                    assert(view[j] == m);
                }
            }
        }
        r
    }

    /// The pending messages, each once, each with those who approved it.
    pub fn get_messages_with_signers(&self) -> (r: Vec<(Vec<u8>, Vec<Identity>)>)
        ensures
            keys_of(r.deep_view()).no_duplicates(),
            keys_of(r.deep_view()).to_set() == self@.pending.dom(),
            forall|i: int|
                0 <= i < r.deep_view().len() ==> {
                    let entry = #[trigger] r.deep_view()[i];
                    &&& self@.pending.contains_key(entry.0)
                    &&& entry.1.no_duplicates()
                    &&& entry.1.to_set() == self@.pending[entry.0]
                },
    {
        let n = self.pending.len();
        let ghost entries = self.pending.entries();
        let mut r: Vec<(Vec<u8>, Vec<Identity>)> = Vec::new();
        let mut i: usize = 0;
        while i < n
            invariant
                entries == self.pending.entries(),
                unique_keys(entries),
                n == entries.len(),
                i <= n,
                r@.len() == i,
                forall|j: int|
                    0 <= j < i ==> {
                        let entry = #[trigger] r@[j];
                        &&& entry.0@ == entries[j].0
                        &&& entry.1.deep_view().no_duplicates()
                        &&& entry.1.deep_view().to_set() == entries[j].1
                    },
            decreases n - i,
        {
            let message = self.pending.key_at(i).clone();
            let approvers = self.pending.value_at(i).to_vec();
            r.push((message, approvers));
            i = i + 1;
        }
        proof {
            self.pending.lemma_view();
            lemma_map_domain(entries);
            let view = r.deep_view();
            assert forall|j: int| 0 <= j < view.len() implies view[j].0 == entries[j].0 by {
                lemma_bytes_deep_view(r@[j].0);
            }
            assert(keys_of(view) =~= keys_of(entries));
            assert forall|i: int| 0 <= i < view.len() implies {
                let entry = #[trigger] view[i];
                &&& self@.pending.contains_key(entry.0)
                &&& entry.1.no_duplicates()
                &&& entry.1.to_set() == self@.pending[entry.0]
            } by {
                lemma_entry_in_map(entries, i);
                lemma_bytes_deep_view(r@[i].0);
            }
        }
        r
    }

    /// Retires `message`: it is no longer pending, and its annotation is gone.
    pub fn remove_message_and_metadata(&mut self, message: &Vec<u8>)
        ensures
            final(self)@ == old(self)@.retire(message@),
    {
        let _ = self.pending.remove(message);
        let _ = self.metadata.remove(message);
    }

    /// Attaches `text` to the pending `message`, in place of any earlier
    /// annotation, and records `caller` as its author.
    pub fn add_metadata(&mut self, message: Vec<u8>, text: String, caller: Identity) -> (r: Result<
        (),
        WalletError,
    >)
        ensures
            r == old(self)@.add_metadata_outcome(message@),
            final(self)@ == old(self)@.add_metadata(message@, text@, caller@),
    {
        if !self.pending.contains_key(&message) {
            return Err(WalletError::NotQueued);
        }
        self.metadata.insert(message, Annotation { text, author: caller });
        Ok(())
    }

    /// The annotation of `message`, if there is one and `caller` is a signer.
    pub fn get_metadata(&self, message: &Vec<u8>, caller: &Identity) -> (r: Option<&String>)
        ensures
            match r {
                Some(text) => self@.visible_metadata(message@, caller@) == Some(text@),
                None => self@.visible_metadata(message@, caller@) is None,
            },
    {
        if !self.signers.contains(caller) {
            return None;
        }
        match self.metadata.get(message) {
            Some(annotation) => Some(&annotation.text),
            None => None,
        }
    }
}

} // verus!
