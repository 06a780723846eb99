//! The registry: every wallet under its identifier, and for every identity the
//! wallets that it was enlisted in.
//!
//! Callers hand messages over as hexadecimal text. The signing of a message is
//! the one operation that needs work from outside the engine; it is split in
//! two steps around that work, [`WalletRegistry::sign`] and
//! [`WalletRegistry::finish_sign`].

use crate::command::{
    add_signer_message, add_signer_payload, command_of, decode_command, remove_signer_message,
    remove_signer_payload, set_threshold_message, set_threshold_payload, transfer_message,
    transfer_payload, Command, CommandView,
};
use crate::error::WalletError;
use crate::hexcode::{
    decode_message, encode_message, encode_messages, hex_decoded, hex_encoded, hex_encoded_all,
    hex_encoded_set, is_hex_text, lemma_decode_encode, lemma_encode_all,
};
use crate::identity::Identity;
use crate::store::{keys_of, KeyedStore};
use crate::wallet::{Wallet, WalletView};
use vstd::prelude::*;

verus! {

/// The entries of `list` other than `x`, in order.
pub open spec fn without<A>(list: Seq<A>, x: A) -> Seq<A>
    decreases list.len(),
{
    if list.len() == 0 {
        list
    } else if list.last() == x {
        without(list.drop_last(), x)
    } else {
        without(list.drop_last(), x).push(list.last())
    }
}

proof fn lemma_push_to_set<A>(s: Seq<A>, x: A)
    ensures
        s.push(x).to_set() == s.to_set().insert(x),
{
    let t = s.push(x);
    assert forall|a: A| t.to_set().contains(a) <==> s.to_set().insert(x).contains(a) by {
        if s.contains(a) {
            let i = choose|i: int| 0 <= i < s.len() && s[i] == a;
            assert(t[i] == a);
        }
        if a == x {
            assert(t[s.len() as int] == x);
        }
    }
}

/// The wallets that an identity was enlisted in, in the order of enlisting.
struct WalletList {
    ids: Vec<String>,
}

impl View for WalletList {
    type V = Seq<Seq<char>>;

    closed spec fn view(&self) -> Seq<Seq<char>> {
        self.ids.deep_view()
    }
}

impl WalletList {
    fn new() -> (r: WalletList)
        ensures
            r@ == Seq::<Seq<char>>::empty(),
    {
        WalletList { ids: Vec::new() }
    }

    fn push(&mut self, id: String)
        ensures
            final(self)@ == old(self)@.push(id@),
    {
        self.ids.push(id);
    }

    fn without(&self, id: &String) -> (r: WalletList)
        ensures
            r@ == without(self@, id@),
    {
        let mut kept: Vec<String> = Vec::new();
        let mut i: usize = 0;
        while i < self.ids.len()
            invariant
                i <= self.ids.len(),
                kept.deep_view() == without(self@.take(i as int), id@),
            decreases self.ids.len() - i,
        {
            assert(self@.take(i + 1).drop_last() =~= self@.take(i as int));
            if !(self.ids[i] == *id) {
                kept.push(self.ids[i].clone());
            }
            i = i + 1;
        }
        assert(self@.take(i as int) =~= self@);
        WalletList { ids: kept }
    }

    fn to_vec(&self) -> (r: Vec<String>)
        ensures
            r.deep_view() == self@,
    {
        let mut r: Vec<String> = Vec::new();
        let mut i: usize = 0;
        while i < self.ids.len()
            invariant
                i <= self.ids.len(),
                r@.len() == i,
                forall|j: int| 0 <= j < i ==> (#[trigger] r@[j])@ == self.ids@[j]@,
            decreases self.ids.len() - i,
        {
            r.push(self.ids[i].clone());
            i = i + 1;
        }
        r
    }
}

fn copy_identities(ids: &Vec<Identity>) -> (r: Vec<Identity>)
    ensures
        r.deep_view() == ids.deep_view(),
{
    let mut r: Vec<Identity> = Vec::new();
    let mut i: usize = 0;
    while i < ids.len()
        invariant
            i <= ids.len(),
            r@.len() == i,
            forall|j: int| 0 <= j < i ==> (#[trigger] r@[j])@ == ids@[j]@,
        decreases ids.len() - i,
    {
        r.push(ids[i].clone());
        i = i + 1;
    }
    r
}

/// The address book in which each of `members` has `wallet_id` appended to its
/// list, starting a list where it had none.
pub open spec fn enlisted(
    book: Map<Seq<u8>, Seq<Seq<char>>>,
    members: Set<Seq<u8>>,
    wallet_id: Seq<char>,
) -> Map<Seq<u8>, Seq<Seq<char>>> {
    Map::new(
        |who: Seq<u8>| book.contains_key(who) || members.contains(who),
        |who: Seq<u8>|
            if members.contains(who) {
                (if book.contains_key(who) {
                    book[who]
                } else {
                    Seq::empty()
                }).push(wallet_id)
            } else {
                book[who]
            },
    )
}

/// The mathematical content of a [`WalletRegistry`].
pub struct RegistryView {
    /// The wallets, by identifier.
    pub wallets: Map<Seq<char>, WalletView>,
    /// For each identity, the wallets it was enlisted in, in order.
    pub address_book: Map<Seq<u8>, Seq<Seq<char>>>,
}

impl RegistryView {
    /// A registry without wallets.
    pub open spec fn empty() -> RegistryView {
        RegistryView { wallets: Map::empty(), address_book: Map::empty() }
    }

    /// The wallets that `who` was enlisted in; none if `who` is unknown.
    pub open spec fn wallets_for(self, who: Seq<u8>) -> Seq<Seq<char>> {
        if self.address_book.contains_key(who) {
            self.address_book[who]
        } else {
            Seq::empty()
        }
    }

    /// The registry with `wallet` stored under `wallet_id`.
    pub open spec fn with_wallet(self, wallet_id: Seq<char>, wallet: WalletView) -> RegistryView {
        RegistryView { wallets: self.wallets.insert(wallet_id, wallet), ..self }
    }

    /// The registry after `wallet_id` was appended to the list of `who`.
    pub open spec fn enlist(self, who: Seq<u8>, wallet_id: Seq<char>) -> RegistryView {
        RegistryView {
            address_book: self.address_book.insert(who, self.wallets_for(who).push(wallet_id)),
            ..self
        }
    }

    /// The registry after `wallet_id` was struck from the list of `who`, if
    /// `who` has a list.
    pub open spec fn delist(self, who: Seq<u8>, wallet_id: Seq<char>) -> RegistryView {
        if self.address_book.contains_key(who) {
            RegistryView {
                address_book: self.address_book.insert(
                    who,
                    without(self.address_book[who], wallet_id),
                ),
                ..self
            }
        } else {
            self
        }
    }

    /// What creating a wallet reports.
    pub open spec fn create_wallet_outcome(
        self,
        wallet_id: Seq<char>,
        signers: Set<Seq<u8>>,
        threshold: u8,
    ) -> Result<(), WalletError> {
        if self.wallets.contains_key(wallet_id) {
            Err(WalletError::AlreadyExists)
        } else if !(1 <= threshold <= signers.len()) {
            Err(WalletError::ThresholdInvalid)
        } else {
            Ok(())
        }
    }

    /// The registry after an attempt to create a wallet: on success the wallet
    /// is stored and each of its signers is enlisted in it.
    pub open spec fn create_wallet(
        self,
        wallet_id: Seq<char>,
        signers: Set<Seq<u8>>,
        threshold: u8,
    ) -> RegistryView {
        if self.create_wallet_outcome(wallet_id, signers, threshold) is Ok {
            RegistryView {
                wallets: self.wallets.insert(
                    wallet_id,
                    WalletView { signers, threshold, ..WalletView::empty() },
                ),
                address_book: enlisted(self.address_book, signers, wallet_id),
            }
        } else {
            self
        }
    }

    /// What proposing the message written as `text` reports.
    pub open spec fn propose_outcome(
        self,
        wallet_id: Seq<char>,
        text: Seq<char>,
        proposer: Seq<u8>,
    ) -> Result<(), WalletError> {
        if !is_hex_text(text) {
            Err(WalletError::InvalidMessage)
        } else if !self.wallets.contains_key(wallet_id) {
            Err(WalletError::WalletNotFound)
        } else {
            self.wallets[wallet_id].propose_outcome(hex_decoded(text), proposer)
        }
    }

    /// The registry after an attempt to propose the message written as `text`.
    pub open spec fn propose(
        self,
        wallet_id: Seq<char>,
        text: Seq<char>,
        proposer: Seq<u8>,
    ) -> RegistryView {
        if is_hex_text(text) && self.wallets.contains_key(wallet_id) {
            self.with_wallet(
                wallet_id,
                self.wallets[wallet_id].propose(hex_decoded(text), proposer),
            )
        } else {
            self
        }
    }

    /// What approving the message written as `text` reports: on success, the
    /// number of approvals that the message then has.
    pub open spec fn approve_outcome(
        self,
        wallet_id: Seq<char>,
        text: Seq<char>,
        approver: Seq<u8>,
    ) -> Result<nat, WalletError> {
        if !is_hex_text(text) {
            Err(WalletError::InvalidMessage)
        } else if !self.wallets.contains_key(wallet_id) {
            Err(WalletError::WalletNotFound)
        } else {
            self.wallets[wallet_id].approve_outcome(hex_decoded(text), approver)
        }
    }

    /// The registry after an attempt to approve the message written as `text`.
    pub open spec fn approve(
        self,
        wallet_id: Seq<char>,
        text: Seq<char>,
        approver: Seq<u8>,
    ) -> RegistryView {
        if is_hex_text(text) && self.wallets.contains_key(wallet_id) {
            self.with_wallet(
                wallet_id,
                self.wallets[wallet_id].approve(hex_decoded(text), approver),
            )
        } else {
            self
        }
    }

    /// Whether the message written as `text` can be signed in the wallet.
    pub open spec fn can_sign(self, wallet_id: Seq<char>, text: Seq<char>) -> bool {
        &&& is_hex_text(text)
        &&& self.wallets.contains_key(wallet_id)
        &&& self.wallets[wallet_id].can_sign(hex_decoded(text))
    }

    /// What annotating the message written as `text` reports.
    pub open spec fn add_metadata_outcome(self, wallet_id: Seq<char>, text: Seq<char>) -> Result<
        (),
        WalletError,
    > {
        if !is_hex_text(text) {
            Err(WalletError::InvalidMessage)
        } else if !self.wallets.contains_key(wallet_id) {
            Err(WalletError::WalletNotFound)
        } else {
            self.wallets[wallet_id].add_metadata_outcome(hex_decoded(text))
        }
    }

    /// The registry after an attempt to annotate the message written as `text`.
    pub open spec fn add_metadata(
        self,
        wallet_id: Seq<char>,
        text: Seq<char>,
        note: Seq<char>,
        author: Seq<u8>,
    ) -> RegistryView {
        if is_hex_text(text) && self.wallets.contains_key(wallet_id) {
            self.with_wallet(
                wallet_id,
                self.wallets[wallet_id].add_metadata(hex_decoded(text), note, author),
            )
        } else {
            self
        }
    }

    /// What asking for the annotation of the message written as `text` yields.
    /// One who is no signer learns as much as if there were no annotation.
    pub open spec fn get_metadata(
        self,
        wallet_id: Seq<char>,
        text: Seq<char>,
        requester: Seq<u8>,
    ) -> Result<Seq<char>, WalletError> {
        if !is_hex_text(text) {
            Err(WalletError::InvalidMessage)
        } else if !self.wallets.contains_key(wallet_id) {
            Err(WalletError::WalletNotFound)
        } else {
            match self.wallets[wallet_id].visible_metadata(hex_decoded(text), requester) {
                Some(note) => Ok(note),
                None => Err(WalletError::MetadataNotFound),
            }
        }
    }

    /// What proposing a message together with an annotation reports.
    pub open spec fn propose_with_metadata_outcome(
        self,
        wallet_id: Seq<char>,
        text: Seq<char>,
        proposer: Seq<u8>,
    ) -> Result<(), WalletError> {
        if self.propose_outcome(wallet_id, text, proposer) is Ok {
            self.propose(wallet_id, text, proposer).add_metadata_outcome(wallet_id, text)
        } else {
            self.propose_outcome(wallet_id, text, proposer)
        }
    }

    /// The registry after an attempt to propose a message together with an
    /// annotation: nothing is annotated unless the proposal succeeds.
    pub open spec fn propose_with_metadata(
        self,
        wallet_id: Seq<char>,
        text: Seq<char>,
        note: Seq<char>,
        proposer: Seq<u8>,
    ) -> RegistryView {
        if self.propose_outcome(wallet_id, text, proposer) is Ok {
            self.propose(wallet_id, text, proposer).add_metadata(wallet_id, text, note, proposer)
        } else {
            self
        }
    }

    /// What executing `command` as the content of the pending `message`
    /// reports: an error, or what remains to be done outside the engine.
    pub open spec fn execute_outcome(
        self,
        wallet_id: Seq<char>,
        message: Seq<u8>,
        command: CommandView,
    ) -> Result<SignStepView, WalletError> {
        if !self.wallets.contains_key(wallet_id) {
            Err(WalletError::WalletNotFound)
        } else if !self.wallets[wallet_id].can_sign(message) {
            Err(WalletError::CannotSign)
        } else {
            match command {
                CommandView::AddSigner(_) => Ok(SignStepView::Done),
                CommandView::RemoveSigner(_) => Ok(SignStepView::Done),
                CommandView::Malformed => Ok(SignStepView::Done),
                CommandView::SetThreshold(threshold) => if self.wallets[wallet_id].accepts_threshold(
                    threshold,
                ) {
                    Ok(SignStepView::Done)
                } else {
                    Err(WalletError::ThresholdInvalid)
                },
                CommandView::Transfer { amount, to } => Ok(SignStepView::Transfer { amount, to }),
                CommandView::Opaque => Ok(SignStepView::Sign { message }),
            }
        }
    }

    /// The registry after an attempt to execute `command` as the content of
    /// the pending `message`. Nothing changes unless the message can be
    /// signed. A command that the engine executes itself takes effect, and
    /// the message is retired whether or not the command parsed or was
    /// accepted. A transfer or an ordinary message leaves the registry as it
    /// is until [`RegistryView::finish_sign`].
    pub open spec fn execute(
        self,
        wallet_id: Seq<char>,
        message: Seq<u8>,
        command: CommandView,
    ) -> RegistryView {
        if !self.wallets.contains_key(wallet_id) || !self.wallets[wallet_id].can_sign(message) {
            self
        } else {
            let wallet = self.wallets[wallet_id];
            match command {
                CommandView::AddSigner(who) => self.with_wallet(
                    wallet_id,
                    wallet.add_signer(who).retire(message),
                ).enlist(who, wallet_id),
                CommandView::RemoveSigner(who) => self.with_wallet(
                    wallet_id,
                    wallet.remove_signer(who).retire(message),
                ).delist(who, wallet_id),
                CommandView::SetThreshold(threshold) => self.with_wallet(
                    wallet_id,
                    wallet.set_threshold(threshold).retire(message),
                ),
                CommandView::Malformed => self.with_wallet(wallet_id, wallet.retire(message)),
                CommandView::Transfer { .. } => self,
                CommandView::Opaque => self,
            }
        }
    }

    /// What a request to sign the message written as `text` reports: the text
    /// must decode, and the command that the message stands for is executed.
    pub open spec fn sign_outcome(self, wallet_id: Seq<char>, text: Seq<char>) -> Result<
        SignStepView,
        WalletError,
    > {
        if !is_hex_text(text) {
            Err(WalletError::InvalidMessage)
        } else {
            self.execute_outcome(wallet_id, hex_decoded(text), command_of(hex_decoded(text)))
        }
    }

    /// The registry after a request to sign the message written as `text`.
    pub open spec fn sign(self, wallet_id: Seq<char>, text: Seq<char>) -> RegistryView {
        if !is_hex_text(text) {
            self
        } else {
            self.execute(wallet_id, hex_decoded(text), command_of(hex_decoded(text)))
        }
    }

    /// Whether a request to sign the message written as `text` is admitted: the
    /// text decodes, the wallet exists, and the message can be signed.
    pub open spec fn sign_admitted(self, wallet_id: Seq<char>, text: Seq<char>) -> bool {
        &&& is_hex_text(text)
        &&& self.wallets.contains_key(wallet_id)
        &&& self.wallets[wallet_id].can_sign(hex_decoded(text))
    }

    /// The registry after the outside work for the message written as `text`
    /// has ended, however it ended: the message is retired.
    pub open spec fn finish_sign(self, wallet_id: Seq<char>, text: Seq<char>) -> RegistryView {
        if is_hex_text(text) && self.wallets.contains_key(wallet_id) {
            self.with_wallet(wallet_id, self.wallets[wallet_id].retire(hex_decoded(text)))
        } else {
            self
        }
    }
}

/// What remains to be done outside the engine after a request to sign.
#[derive(Debug, PartialEq, Eq)]
pub enum SignStep {
    /// Nothing: the message was a command that the engine executed or skipped.
    /// The signature is empty and the message is retired.
    Done,
    /// Have `amount` transferred from the wallet to `to`, then report back with
    /// [`WalletRegistry::finish_sign`].
    Transfer { amount: u64, to: Identity },
    /// Have `message` signed, then report back with
    /// [`WalletRegistry::finish_sign`].
    Sign { message: Vec<u8> },
}

/// The mathematical content of a [`SignStep`].
pub enum SignStepView {
    Done,
    Transfer { amount: u64, to: Seq<u8> },
    Sign { message: Seq<u8> },
}

impl View for SignStep {
    type V = SignStepView;

    open spec fn view(&self) -> SignStepView {
        match self {
            SignStep::Done => SignStepView::Done,
            SignStep::Transfer { amount, to } => SignStepView::Transfer { amount: *amount, to: to@ },
            SignStep::Sign { message } => SignStepView::Sign { message: message@ },
        }
    }
}

/// How the work outside the engine ended.
#[derive(Debug, PartialEq, Eq)]
pub enum ExternalOutcome {
    /// The signer produced this signature.
    Signature(Vec<u8>),
    /// The transfer was carried out.
    Transferred,
    /// The signer or the ledger failed, for the reason given.
    Failed(String),
}

/// What the caller is told once the outside work has ended: the signature in
/// hexadecimal, an empty signature after a transfer, or the failure.
pub open spec fn sign_result(outcome: ExternalOutcome) -> Result<Seq<char>, WalletError> {
    match outcome {
        ExternalOutcome::Signature(signature) => Ok(hex_encoded(signature@)),
        ExternalOutcome::Transferred => Ok(Seq::empty()),
        ExternalOutcome::Failed(reason) => Err(WalletError::ExternalFailure(reason)),
    }
}

/// All wallets, and the address book of their signers.
pub struct WalletRegistry {
    wallets: KeyedStore<String, Wallet>,
    address_book: KeyedStore<Identity, WalletList>,
}

impl View for WalletRegistry {
    type V = RegistryView;

    closed spec fn view(&self) -> RegistryView {
        RegistryView { wallets: self.wallets@, address_book: self.address_book@ }
    }
}

impl WalletRegistry {
    /// A registry without wallets.
    pub fn new() -> (r: WalletRegistry)
        ensures
            r@ == RegistryView::empty(),
    {
        WalletRegistry { wallets: KeyedStore::new(), address_book: KeyedStore::new() }
    }

    fn enlist(&mut self, who: &Identity, wallet_id: &String)
        ensures
            final(self)@ == old(self)@.enlist(who@, wallet_id@),
    {
        let mut list = match self.address_book.remove(who) {
            Some(list) => list,
            None => WalletList::new(),
        };
        list.push(wallet_id.clone());
        self.address_book.insert(who.clone(), list);
        assert(self.address_book@ =~= old(self)@.enlist(who@, wallet_id@).address_book);
    }

    fn delist(&mut self, who: &Identity, wallet_id: &String)
        ensures
            final(self)@ == old(self)@.delist(who@, wallet_id@),
    {
        match self.address_book.remove(who) {
            Some(list) => {
                self.address_book.insert(who.clone(), list.without(wallet_id));
                assert(self.address_book@ =~= old(self)@.delist(who@, wallet_id@).address_book);
            },
            None => {
                assert(self.address_book@ =~= old(self)@.address_book);
            },
        }
    }

    /// Creates a wallet with the given signers and threshold under
    /// `wallet_id`, and enlists each signer in it. The identifier must be
    /// free, and the threshold at least 1 and at most the number of distinct
    /// signers.
    pub fn create_wallet(&mut self, wallet_id: &str, signers: Vec<Identity>, threshold: u8) -> (r:
        Result<(), WalletError>)
        ensures
            r == old(self)@.create_wallet_outcome(
                wallet_id@,
                signers.deep_view().to_set(),
                threshold,
            ),
            final(self)@ == old(self)@.create_wallet(
                wallet_id@,
                signers.deep_view().to_set(),
                threshold,
            ),
            r is Ok ==> final(self)@.wallets[wallet_id@].threshold_valid(),
    {
        let id = wallet_id.to_owned();
        if self.wallets.contains_key(&id) {
            return Err(WalletError::AlreadyExists);
        }
        let ghost members = signers.deep_view();
        let mut wallet = Wallet::new();
        let mut i: usize = 0;
        assert(members.take(0).to_set() =~= Set::<Seq<u8>>::empty());
        while i < signers.len()
            invariant
                i <= signers.len(),
                members == signers.deep_view(),
                wallet@ == (WalletView { signers: members.take(i as int).to_set(), ..WalletView::empty() }),
            decreases signers.len() - i,
        {
            wallet.add_signer(signers[i].clone());
            proof {
                assert(members.take(i + 1) =~= members.take(i as int).push(members[i as int]));
                lemma_push_to_set(members.take(i as int), members[i as int]);
                assert(members.take(i + 1).to_set() =~= members.take(i as int).to_set().insert(
                    members[i as int],
                ));
            }
            i = i + 1;
        }
        assert(members.take(i as int) =~= members);
        if wallet.set_default_threshold(threshold).is_err() {
            return Err(WalletError::ThresholdInvalid);
        }
        let enlisting = wallet.get_signers();
        self.wallets.insert(id.clone(), wallet);
        let ghost book = old(self)@.address_book;
        let ghost names = enlisting.deep_view();
        let mut k: usize = 0;
        while k < enlisting.len()
            invariant
                k <= enlisting.len(),
                names == enlisting.deep_view(),
                names.no_duplicates(),
                self.wallets@ == old(self)@.create_wallet(wallet_id@, members.to_set(), threshold).wallets,
                id@ == wallet_id@,
                self.address_book@ == enlisted(book, names.take(k as int).to_set(), id@),
            decreases enlisting.len() - k,
        {
            let ghost done = names.take(k as int).to_set();
            self.enlist(&enlisting[k], &id);
            proof {
                let who = names[k as int];
                assert(names.take(k + 1) =~= names.take(k as int).push(who));
                lemma_push_to_set(names.take(k as int), who);
                assert(!done.contains(who));
            }
            k = k + 1;
        }
        assert(names.take(k as int) =~= names);
        Ok(())
    }

    /// The wallet stored under `wallet_id`, if there is one.
    pub fn get_wallet(&self, wallet_id: &str) -> (r: Option<&Wallet>)
        ensures
            match r {
                Some(wallet) => self@.wallets.contains_key(wallet_id@) && wallet@
                    == self@.wallets[wallet_id@],
                None => !self@.wallets.contains_key(wallet_id@),
            },
    {
        let id = wallet_id.to_owned();
        self.wallets.get(&id)
    }

    /// Proposes the message written as `message` in the wallet, on behalf of
    /// `caller`.
    pub fn propose(&mut self, wallet_id: &str, message: &str, caller: &Identity) -> (r: Result<
        (),
        WalletError,
    >)
        ensures
            r == old(self)@.propose_outcome(wallet_id@, message@, caller@),
            final(self)@ == old(self)@.propose(wallet_id@, message@, caller@),
    {
        let bytes = match decode_message(message) {
            Ok(bytes) => bytes,
            Err(e) => {
                return Err(e);
            },
        };
        let id = wallet_id.to_owned();
        match self.wallets.remove(&id) {
            None => {
                assert(self.wallets@ =~= old(self)@.wallets);
                Err(WalletError::WalletNotFound)
            },
            Some(wallet) => {
                let mut wallet = wallet;
                let r = wallet.propose_message(caller, bytes);
                self.wallets.insert(id, wallet);
                assert(self.wallets@ =~= old(self)@.propose(wallet_id@, message@, caller@).wallets);
                r
            },
        }
    }

    /// Whether the message written as `message` can be signed in the wallet.
    /// Text that is no message, and a wallet that does not exist, give `false`.
    pub fn can_sign(&self, wallet_id: &str, message: &str) -> (r: bool)
        ensures
            r == self@.can_sign(wallet_id@, message@),
    {
        match decode_message(message) {
            Ok(bytes) => {
                let id = wallet_id.to_owned();
                match self.wallets.get(&id) {
                    Some(wallet) => wallet.can_sign(&bytes),
                    None => false,
                }
            },
            Err(_) => false,
        }
    }

    /// Records the approval of `caller` for the message written as `message`,
    /// and returns the number of approvals that it then has.
    pub fn approve(&mut self, wallet_id: &str, message: &str, caller: &Identity) -> (r: Result<
        usize,
        WalletError,
    >)
        ensures
            match r {
                Ok(n) => old(self)@.approve_outcome(wallet_id@, message@, caller@) == Ok::<
                    nat,
                    WalletError,
                >(n as nat),
                Err(e) => old(self)@.approve_outcome(wallet_id@, message@, caller@) == Err::<
                    nat,
                    WalletError,
                >(e),
            },
            final(self)@ == old(self)@.approve(wallet_id@, message@, caller@),
    {
        let bytes = match decode_message(message) {
            Ok(bytes) => bytes,
            Err(e) => {
                return Err(e);
            },
        };
        let id = wallet_id.to_owned();
        match self.wallets.remove(&id) {
            None => {
                assert(self.wallets@ =~= old(self)@.wallets);
                Err(WalletError::WalletNotFound)
            },
            Some(wallet) => {
                let mut wallet = wallet;
                let r = wallet.approve(bytes, caller);
                self.wallets.insert(id, wallet);
                assert(self.wallets@ =~= old(self)@.approve(wallet_id@, message@, caller@).wallets);
                r
            },
        }
    }

    /// Attaches `metadata` to the pending message written as `message`, in place
    /// of any earlier annotation, with `caller` as its author.
    pub fn add_metadata(
        &mut self,
        wallet_id: &str,
        message: &str,
        metadata: String,
        caller: &Identity,
    ) -> (r: Result<(), WalletError>)
        ensures
            r == old(self)@.add_metadata_outcome(wallet_id@, message@),
            final(self)@ == old(self)@.add_metadata(wallet_id@, message@, metadata@, caller@),
    {
        let bytes = match decode_message(message) {
            Ok(bytes) => bytes,
            Err(e) => {
                return Err(e);
            },
        };
        let id = wallet_id.to_owned();
        match self.wallets.remove(&id) {
            None => {
                assert(self.wallets@ =~= old(self)@.wallets);
                Err(WalletError::WalletNotFound)
            },
            Some(wallet) => {
                let mut wallet = wallet;
                let r = wallet.add_metadata(bytes, metadata, caller.clone());
                self.wallets.insert(id, wallet);
                assert(self.wallets@ =~= old(self)@.add_metadata(
                    wallet_id@,
                    message@,
                    metadata@,
                    caller@,
                ).wallets);
                r
            },
        }
    }

    /// The annotation of the message written as `message`, as `caller` may see
    /// it.
    pub fn get_metadata(&self, wallet_id: &str, message: &str, caller: &Identity) -> (r: Result<
        String,
        WalletError,
    >)
        ensures
            match r {
                Ok(note) => self@.get_metadata(wallet_id@, message@, caller@) == Ok::<
                    Seq<char>,
                    WalletError,
                >(note@),
                Err(e) => self@.get_metadata(wallet_id@, message@, caller@) == Err::<
                    Seq<char>,
                    WalletError,
                >(e),
            },
    {
        let bytes = match decode_message(message) {
            Ok(bytes) => bytes,
            Err(e) => {
                return Err(e);
            },
        };
        let id = wallet_id.to_owned();
        match self.wallets.get(&id) {
            None => Err(WalletError::WalletNotFound),
            Some(wallet) => match wallet.get_metadata(&bytes, caller) {
                Some(note) => Ok(note.clone()),
                None => Err(WalletError::MetadataNotFound),
            },
        }
    }

    /// Proposes the message written as `message` and, if that succeeds,
    /// attaches `metadata` to it.
    pub fn propose_with_metadata(
        &mut self,
        wallet_id: &str,
        message: &str,
        metadata: String,
        caller: &Identity,
    ) -> (r: Result<(), WalletError>)
        ensures
            r == old(self)@.propose_with_metadata_outcome(wallet_id@, message@, caller@),
            final(self)@ == old(self)@.propose_with_metadata(
                wallet_id@,
                message@,
                metadata@,
                caller@,
            ),
    {
        match self.propose(wallet_id, message, caller) {
            Ok(()) => self.add_metadata(wallet_id, message, metadata, caller),
            Err(e) => {
                assert(self@.wallets =~= old(self)@.wallets);
                Err(e)
            },
        }
    }

    /// The messages that can be signed in the wallet, each once, in
    /// hexadecimal.
    pub fn get_messages_to_sign(&self, wallet_id: &str) -> (r: Result<Vec<String>, WalletError>)
        ensures
            match r {
                Ok(texts) => {
                    &&& self@.wallets.contains_key(wallet_id@)
                    &&& texts.deep_view().no_duplicates()
                    &&& texts.deep_view().to_set() == hex_encoded_set(
                        self@.wallets[wallet_id@].signable(),
                    )
                },
                Err(e) => e == WalletError::WalletNotFound && !self@.wallets.contains_key(
                    wallet_id@,
                ),
            },
    {
        let id = wallet_id.to_owned();
        match self.wallets.get(&id) {
            None => Err(WalletError::WalletNotFound),
            Some(wallet) => {
                let messages = wallet.get_messages_to_sign();
                proof {
                    lemma_encode_all(messages.deep_view());
                }
                Ok(encode_messages(&messages))
            },
        }
    }

    /// The messages that are pending in the wallet, each once, in hexadecimal.
    pub fn get_proposed_messages(&self, wallet_id: &str) -> (r: Result<Vec<String>, WalletError>)
        ensures
            match r {
                Ok(texts) => {
                    &&& self@.wallets.contains_key(wallet_id@)
                    &&& texts.deep_view().no_duplicates()
                    &&& texts.deep_view().to_set() == hex_encoded_set(
                        self@.wallets[wallet_id@].pending.dom(),
                    )
                },
                Err(e) => e == WalletError::WalletNotFound && !self@.wallets.contains_key(
                    wallet_id@,
                ),
            },
    {
        let id = wallet_id.to_owned();
        match self.wallets.get(&id) {
            None => Err(WalletError::WalletNotFound),
            Some(wallet) => {
                let messages = wallet.get_proposed_messages();
                proof {
                    lemma_encode_all(messages.deep_view());
                }
                Ok(encode_messages(&messages))
            },
        }
    }

    /// The messages that are pending in the wallet, each once, in hexadecimal,
    /// each with those who approved it.
    pub fn get_messages_with_signers(&self, wallet_id: &str) -> (r: Result<
        Vec<(String, Vec<Identity>)>,
        WalletError,
    >)
        ensures
            match r {
                Ok(list) => {
                    let pending = self@.wallets[wallet_id@].pending;
                    &&& self@.wallets.contains_key(wallet_id@)
                    &&& keys_of(list.deep_view()).no_duplicates()
                    &&& keys_of(list.deep_view()).to_set() == hex_encoded_set(pending.dom())
                    &&& forall|i: int|
                        0 <= i < list.deep_view().len() ==> {
                            let entry = #[trigger] list.deep_view()[i];
                            &&& is_hex_text(entry.0)
                            &&& hex_encoded(hex_decoded(entry.0)) == entry.0
                            &&& pending.contains_key(hex_decoded(entry.0))
                            &&& entry.1.no_duplicates()
                            &&& entry.1.to_set() == pending[hex_decoded(entry.0)]
                        }
                },
                Err(e) => e == WalletError::WalletNotFound && !self@.wallets.contains_key(
                    wallet_id@,
                ),
            },
    {
        let id = wallet_id.to_owned();
        match self.wallets.get(&id) {
            None => Err(WalletError::WalletNotFound),
            Some(wallet) => {
                let entries = wallet.get_messages_with_signers();
                let ghost source = entries.deep_view();
                let mut list: Vec<(String, Vec<Identity>)> = Vec::new();
                let mut i: usize = 0;
                while i < entries.len()
                    invariant
                        source == entries.deep_view(),
                        i <= entries.len(),
                        list@.len() == i,
                        forall|j: int|
                            0 <= j < i ==> {
                                let entry = #[trigger] list@[j];
                                &&& entry.0@ == hex_encoded(source[j].0)
                                &&& entry.1.deep_view() == source[j].1
                            },
                    decreases entries.len() - i,
                {
                    let text = encode_message(entries[i].0.as_slice());
                    let approvers = copy_identities(&entries[i].1);
                    list.push((text, approvers));
                    i = i + 1;
                }
                proof {
                    let view = list.deep_view();
                    assert(keys_of(view) =~= hex_encoded_all(keys_of(source)));
                    lemma_encode_all(keys_of(source));
                    assert forall|i: int| 0 <= i < view.len() implies {
                        let entry = #[trigger] view[i];
                        &&& is_hex_text(entry.0)
                        &&& hex_encoded(hex_decoded(entry.0)) == entry.0
                        &&& self@.wallets[wallet_id@].pending.contains_key(hex_decoded(entry.0))
                        &&& entry.1.no_duplicates()
                        &&& entry.1.to_set() == self@.wallets[wallet_id@].pending[hex_decoded(
                            entry.0,
                        )]
                    } by {
                        lemma_decode_encode(source[i].0);
                    }
                }
                Ok(list)
            },
        }
    }

    /// Proposes, on behalf of `caller`, the command that adds `new_signer` to the
    /// signers of the wallet, and returns the command in hexadecimal whether
    /// or not the proposal was accepted.
    pub fn add_signer(&mut self, wallet_id: &str, new_signer: &Identity, caller: &Identity) -> (text:
        String)
        ensures
            text@ == hex_encoded(add_signer_payload(new_signer@)),
            final(self)@ == old(self)@.propose(wallet_id@, text@, caller@),
    {
        let text = encode_message(add_signer_message(new_signer).as_slice());
        let _ = self.propose(wallet_id, text.as_str(), caller);
        text
    }

    /// Proposes, on behalf of `caller`, the command that removes
    /// `signer_to_remove` from the signers of the wallet, and returns the
    /// command in hexadecimal whether or not the proposal was accepted.
    pub fn remove_signer(
        &mut self,
        wallet_id: &str,
        signer_to_remove: &Identity,
        caller: &Identity,
    ) -> (text: String)
        ensures
            text@ == hex_encoded(remove_signer_payload(signer_to_remove@)),
            final(self)@ == old(self)@.propose(wallet_id@, text@, caller@),
    {
        let text = encode_message(remove_signer_message(signer_to_remove).as_slice());
        let _ = self.propose(wallet_id, text.as_str(), caller);
        text
    }

    /// Proposes, on behalf of `caller`, the command that sets the threshold of
    /// the wallet, and returns the command in hexadecimal whether or not the
    /// proposal was accepted.
    pub fn set_threshold(&mut self, wallet_id: &str, new_threshold: u8, caller: &Identity) -> (text:
        String)
        ensures
            text@ == hex_encoded(set_threshold_payload(new_threshold)),
            final(self)@ == old(self)@.propose(wallet_id@, text@, caller@),
    {
        let text = encode_message(set_threshold_message(new_threshold).as_slice());
        let _ = self.propose(wallet_id, text.as_str(), caller);
        text
    }

    /// Proposes, on behalf of `caller`, the command that transfers `amount`
    /// from the wallet to `to`, and returns the command in hexadecimal whether
    /// or not the proposal was accepted.
    pub fn transfer(&mut self, wallet_id: &str, amount: u64, to: &Identity, caller: &Identity) -> (text:
        String)
        ensures
            text@ == hex_encoded(transfer_payload(amount, to@)),
            final(self)@ == old(self)@.propose(wallet_id@, text@, caller@),
    {
        let text = encode_message(transfer_message(amount, to).as_slice());
        let _ = self.propose(wallet_id, text.as_str(), caller);
        text
    }

    /// Executes `command` as the content of `message`, which must be pending
    /// in the wallet with enough approvals. The caller vouches that `command`
    /// is what the message stands for; [`WalletRegistry::sign`] reads it from
    /// the message itself.
    pub fn execute(&mut self, wallet_id: &str, message: Vec<u8>, command: Command) -> (r: Result<
        SignStep,
        WalletError,
    >)
        ensures
            match r {
                Ok(step) => old(self)@.execute_outcome(wallet_id@, message@, command@) == Ok::<
                    SignStepView,
                    WalletError,
                >(step@),
                Err(e) => old(self)@.execute_outcome(wallet_id@, message@, command@) == Err::<
                    SignStepView,
                    WalletError,
                >(e),
            },
            final(self)@ == old(self)@.execute(wallet_id@, message@, command@),
    {
        let id = wallet_id.to_owned();
        let signable = match self.wallets.get(&id) {
            Some(wallet) => wallet.can_sign(&message),
            None => {
                return Err(WalletError::WalletNotFound);
            },
        };
        if !signable {
            return Err(WalletError::CannotSign);
        }
        match command {
            Command::Transfer { amount, to } => {
                return Ok(SignStep::Transfer { amount, to });
            },
            Command::Opaque => {
                return Ok(SignStep::Sign { message });
            },
            _ => {},
        }
        let mut wallet = match self.wallets.remove(&id) {
            Some(wallet) => wallet,
            None => {
                return Err(WalletError::WalletNotFound);
            },
        };
        match command {
            Command::AddSigner(who) => {
                wallet.add_signer(who.clone());
                wallet.remove_message_and_metadata(&message);
                self.wallets.insert(id.clone(), wallet);
                assert(self.wallets@ =~= old(self)@.execute(
                    wallet_id@,
                    message@,
                    command@,
                ).wallets);
                self.enlist(&who, &id);
                Ok(SignStep::Done)
            },
            Command::RemoveSigner(who) => {
                wallet.remove_signer(&who);
                wallet.remove_message_and_metadata(&message);
                self.wallets.insert(id.clone(), wallet);
                assert(self.wallets@ =~= old(self)@.execute(
                    wallet_id@,
                    message@,
                    command@,
                ).wallets);
                self.delist(&who, &id);
                Ok(SignStep::Done)
            },
            Command::SetThreshold(threshold) => {
                let r = wallet.set_default_threshold(threshold);
                wallet.remove_message_and_metadata(&message);
                self.wallets.insert(id, wallet);
                assert(self.wallets@ =~= old(self)@.execute(
                    wallet_id@,
                    message@,
                    command@,
                ).wallets);
                match r {
                    Ok(()) => Ok(SignStep::Done),
                    Err(e) => Err(e),
                }
            },
            _ => {
                wallet.remove_message_and_metadata(&message);
                self.wallets.insert(id, wallet);
                assert(self.wallets@ =~= old(self)@.execute(
                    wallet_id@,
                    message@,
                    command@,
                ).wallets);
                Ok(SignStep::Done)
            },
        }
    }

    /// Starts the signing of the message written as `message`, which must have
    /// gathered enough approvals. A command that the engine executes itself is
    /// executed or, if its payload does not parse, skipped, and the message is
    /// retired. For a transfer or an ordinary message the registry stays as it
    /// is, and the result says what the caller must have done before it calls
    /// [`WalletRegistry::finish_sign`].
    pub fn sign(&mut self, wallet_id: &str, message: &str) -> (r: Result<SignStep, WalletError>)
        ensures
            match r {
                Ok(step) => old(self)@.sign_outcome(wallet_id@, message@) == Ok::<
                    SignStepView,
                    WalletError,
                >(step@),
                Err(e) => old(self)@.sign_outcome(wallet_id@, message@) == Err::<
                    SignStepView,
                    WalletError,
                >(e),
            },
            final(self)@ == old(self)@.sign(wallet_id@, message@),
    {
        match decode_message(message) {
            Ok(bytes) => {
                let command = decode_command(bytes.as_slice());
                self.execute(wallet_id, bytes, command)
            },
            Err(e) => Err(e),
        }
    }

    /// Ends the signing of the message written as `message` once the work
    /// outside the engine has ended. The message is retired however that work
    /// ended; the result is the signature in hexadecimal, an empty signature
    /// after a transfer, or the failure.
    pub fn finish_sign(&mut self, wallet_id: &str, message: &str, outcome: ExternalOutcome) -> (r:
        Result<String, WalletError>)
        ensures
            final(self)@ == old(self)@.finish_sign(wallet_id@, message@),
            match r {
                Ok(signature) => sign_result(outcome) == Ok::<Seq<char>, WalletError>(signature@),
                Err(e) => sign_result(outcome) == Err::<Seq<char>, WalletError>(e),
            },
    {
        match decode_message(message) {
            Ok(bytes) => {
                let id = wallet_id.to_owned();
                match self.wallets.remove(&id) {
                    Some(wallet) => {
                        let mut wallet = wallet;
                        wallet.remove_message_and_metadata(&bytes);
                        self.wallets.insert(id, wallet);
                        assert(self.wallets@ =~= old(self)@.finish_sign(
                            wallet_id@,
                            message@,
                        ).wallets);
                    },
                    None => {
                        assert(self.wallets@ =~= old(self)@.wallets);
                    },
                }
            },
            Err(_) => {},
        }
        match outcome {
            ExternalOutcome::Signature(signature) => Ok(encode_message(signature.as_slice())),
            ExternalOutcome::Transferred => Ok(String::new()),
            ExternalOutcome::Failed(reason) => Err(WalletError::ExternalFailure(reason)),
        }
    }

    /// The wallets that `who` was enlisted in, in the order of enlisting; none
    /// if `who` is unknown.
    pub fn get_wallets_for_principal(&self, who: &Identity) -> (r: Vec<String>)
        ensures
            r.deep_view() == self@.wallets_for(who@),
    {
        match self.address_book.get(who) {
            Some(list) => list.to_vec(),
            None => {
                let r: Vec<String> = Vec::new();
                r
            },
        }
    }
}

/// Decodes what a request to verify a signature carries: the message and the
/// signature, both in hexadecimal.
pub fn decode_verification_request(message: &str, signature: &str) -> (r: Result<
    (Vec<u8>, Vec<u8>),
    WalletError,
>)
    ensures
        match r {
            Ok(pair) => {
                &&& is_hex_text(message@)
                &&& is_hex_text(signature@)
                &&& pair.0@ == hex_decoded(message@)
                &&& pair.1@ == hex_decoded(signature@)
            },
            Err(e) => if !is_hex_text(message@) {
                e == WalletError::InvalidMessage
            } else {
                !is_hex_text(signature@) && e == WalletError::InvalidSignature
            },
        },
{
    let message = match decode_message(message) {
        Ok(bytes) => bytes,
        Err(e) => {
            return Err(e);
        },
    };
    match decode_message(signature) {
        Ok(signature) => Ok((message, signature)),
        Err(_) => Err(WalletError::InvalidSignature),
    }
}

} // verus!
