//! What holds of every wallet and registry, whatever was done to it.
//!
//! Each law is stated over the mathematical content of wallets and
//! registries, in the terms in which the operations themselves are specified.

use crate::command::{command_of, CommandView};
use crate::error::WalletError;
use crate::hexcode::{hex_decoded, hex_encoded, hex_encoded_set, lemma_decode_encode};
use crate::registry::{RegistryView, SignStepView};
use crate::wallet::WalletView;
use vstd::prelude::*;

verus! {

/// One change to a wallet.
pub enum WalletStep {
    AddSigner { id: Seq<u8> },
    RemoveSigner { id: Seq<u8> },
    SetThreshold { threshold: u8 },
    Propose { message: Seq<u8>, proposer: Seq<u8> },
    Approve { message: Seq<u8>, approver: Seq<u8> },
    Retire { message: Seq<u8> },
    AddMetadata { message: Seq<u8>, text: Seq<char>, author: Seq<u8> },
}

/// The wallet after `step`, whether the step was accepted or refused.
pub open spec fn after_step(wallet: WalletView, step: WalletStep) -> WalletView {
    match step {
        WalletStep::AddSigner { id } => wallet.add_signer(id),
        WalletStep::RemoveSigner { id } => wallet.remove_signer(id),
        WalletStep::SetThreshold { threshold } => wallet.set_threshold(threshold),
        WalletStep::Propose { message, proposer } => wallet.propose(message, proposer),
        WalletStep::Approve { message, approver } => wallet.approve(message, approver),
        WalletStep::Retire { message } => wallet.retire(message),
        WalletStep::AddMetadata { message, text, author } => wallet.add_metadata(
            message,
            text,
            author,
        ),
    }
}

/// Every step leaves a well-formed wallet well formed.
pub proof fn lemma_step_keeps_well_formed(wallet: WalletView, step: WalletStep)
    requires
        wallet.well_formed(),
    ensures
        after_step(wallet, step).well_formed(),
{
}

/// What holds of a wallet however it was reached from the empty wallet: its
/// sets are finite, every pending message has at least one approval, and only
/// pending messages are annotated.
pub open spec fn coherent(wallet: WalletView) -> bool {
    &&& wallet.well_formed()
    &&& forall|m: Seq<u8>|
        wallet.pending.contains_key(m) ==> (#[trigger] wallet.pending[m]).len() >= 1
    &&& forall|m: Seq<u8>| #[trigger]
        wallet.metadata.contains_key(m) ==> wallet.pending.contains_key(m)
}

/// The empty wallet is coherent, and every step leaves a coherent wallet
/// coherent.
pub proof fn lemma_step_keeps_coherent(wallet: WalletView, step: WalletStep)
    requires
        coherent(wallet),
    ensures
        coherent(WalletView::empty()),
        coherent(after_step(wallet, step)),
{
    lemma_step_keeps_well_formed(wallet, step);
}

/// Setting the threshold succeeds exactly when the new threshold is at least 1
/// and at most the number of signers. After a success the wallet's threshold
/// is the new one and lies in that range; after a failure the wallet is as it
/// was.
pub proof fn lemma_threshold_stays_valid(wallet: WalletView, threshold: u8)
    ensures
        wallet.set_threshold_outcome(threshold) is Ok <==> 1 <= threshold <= wallet.signers.len(),
        wallet.set_threshold_outcome(threshold) is Ok ==> {
            &&& wallet.set_threshold(threshold).threshold == threshold
            &&& 1 <= wallet.set_threshold(threshold).threshold <= wallet.set_threshold(
                threshold,
            ).signers.len()
        },
        wallet.set_threshold_outcome(threshold) is Err ==> {
            &&& wallet.set_threshold_outcome(threshold) == Err::<(), WalletError>(
                WalletError::ThresholdInvalid,
            )
            &&& wallet.set_threshold(threshold) == wallet
        },
{
}

/// A wallet that was created has a threshold of at least 1 and at most the
/// number of its signers; a refused creation leaves the registry as it was.
pub proof fn lemma_created_wallet_is_valid(
    registry: RegistryView,
    wallet_id: Seq<char>,
    signers: Set<Seq<u8>>,
    threshold: u8,
)
    ensures
        registry.create_wallet_outcome(wallet_id, signers, threshold) is Ok ==> {
            let wallet = registry.create_wallet(wallet_id, signers, threshold).wallets[wallet_id];
            &&& registry.create_wallet(wallet_id, signers, threshold).wallets.contains_key(
                wallet_id,
            )
            &&& wallet.signers == signers
            &&& 1 <= wallet.threshold <= wallet.signers.len()
        },
        registry.create_wallet_outcome(wallet_id, signers, threshold) is Err ==> registry.create_wallet(
            wallet_id,
            signers,
            threshold,
        ) == registry,
{
}

/// A threshold command that is signed sets the threshold if it lies in range,
/// and is then valid; otherwise it is refused as `ThresholdInvalid` and leaves
/// signers and threshold as they were.
pub proof fn lemma_threshold_command(
    registry: RegistryView,
    wallet_id: Seq<char>,
    text: Seq<char>,
    threshold: u8,
)
    requires
        registry.sign_admitted(wallet_id, text),
        command_of(hex_decoded(text)) == CommandView::SetThreshold(threshold),
    ensures
        ({
            let before = registry.wallets[wallet_id];
            let after = registry.sign(wallet_id, text).wallets[wallet_id];
            if before.accepts_threshold(threshold) {
                &&& registry.sign_outcome(wallet_id, text) is Ok
                &&& after.threshold == threshold
                &&& after.threshold_valid()
            } else {
                &&& registry.sign_outcome(wallet_id, text) == Err::<
                    SignStepView,
                    WalletError,
                >(WalletError::ThresholdInvalid)
                &&& after.threshold == before.threshold
                &&& after.signers == before.signers
            }
        }),
{
}

/// While a message is pending, every attempt of a signer to propose it again
/// fails with `AlreadyQueued` and changes nothing; once it is retired, a
/// signer can propose it again.
pub proof fn lemma_propose_again(wallet: WalletView, message: Seq<u8>, proposer: Seq<u8>)
    requires
        wallet.signers.contains(proposer),
        wallet.pending.contains_key(message),
    ensures
        wallet.propose_outcome(message, proposer) == Err::<(), WalletError>(
            WalletError::AlreadyQueued,
        ),
        wallet.propose(message, proposer) == wallet,
        wallet.retire(message).propose_outcome(message, proposer) is Ok,
        wallet.retire(message).propose(message, proposer).pending.contains_key(message),
{
}

/// A message that was just proposed is pending with exactly the approval of
/// its proposer, so that proposing it twice in a row fails the second time.
pub proof fn lemma_propose_twice(
    wallet: WalletView,
    message: Seq<u8>,
    first: Seq<u8>,
    second: Seq<u8>,
)
    requires
        wallet.propose_outcome(message, first) is Ok,
        wallet.signers.contains(second),
    ensures
        wallet.propose(message, first).pending[message] == set![first],
        wallet.propose(message, first).propose_outcome(message, second) == Err::<(), WalletError>(
            WalletError::AlreadyQueued,
        ),
{
}

/// A message can be signed exactly when it is pending and its approvals number
/// at least the threshold.
pub proof fn lemma_signable_iff_quorum(wallet: WalletView, message: Seq<u8>)
    ensures
        wallet.can_sign(message) <==> wallet.pending.contains_key(message)
            && wallet.pending[message].len() >= wallet.threshold,
        wallet.signable().contains(message) <==> wallet.can_sign(message),
{
}

/// An accepted proposal leaves the message with one approval, and an accepted
/// approval adds one to its approvals: the message can be signed from the
/// step on that brings the number to the threshold, and not before.
pub proof fn lemma_approvals_count(wallet: WalletView, message: Seq<u8>, who: Seq<u8>)
    requires
        wallet.well_formed(),
    ensures
        wallet.propose_outcome(message, who) is Ok ==> {
            &&& wallet.propose(message, who).pending[message].len() == 1
            &&& (wallet.propose(message, who).can_sign(message) <==> wallet.threshold <= 1)
        },
        wallet.approve_outcome(message, who) is Ok ==> {
            let count = wallet.pending[message].len() + 1;
            &&& wallet.approve_outcome(message, who) == Ok::<nat, WalletError>(count)
            &&& wallet.approve(message, who).pending[message].len() == count
            &&& (wallet.approve(message, who).can_sign(message) <==> count >= wallet.threshold)
        },
{
}

/// A message that can be signed can still be signed after any step, unless the
/// step retires that message or raises the threshold.
pub proof fn lemma_signable_until_retired(wallet: WalletView, message: Seq<u8>, step: WalletStep)
    requires
        wallet.well_formed(),
        wallet.can_sign(message),
        step != (WalletStep::Retire { message }),
        step matches WalletStep::SetThreshold { threshold } ==> threshold <= wallet.threshold,
    ensures
        after_step(wallet, step).can_sign(message),
{
}

/// A retired message can not be signed, and is neither pending nor annotated.
pub proof fn lemma_retired_is_gone(wallet: WalletView, message: Seq<u8>)
    ensures
        !wallet.retire(message).can_sign(message),
        !wallet.retire(message).pending.contains_key(message),
        !wallet.retire(message).metadata.contains_key(message),
        !wallet.retire(message).signable().contains(message),
{
}

/// One who is no signer can neither propose nor approve: both are refused as
/// `NotASigner` and change nothing.
pub proof fn lemma_outsider_is_refused(wallet: WalletView, message: Seq<u8>, who: Seq<u8>)
    requires
        !wallet.signers.contains(who),
    ensures
        wallet.propose_outcome(message, who) == Err::<(), WalletError>(WalletError::NotASigner),
        wallet.approve_outcome(message, who) == Err::<nat, WalletError>(WalletError::NotASigner),
        wallet.propose(message, who) == wallet,
        wallet.approve(message, who) == wallet,
{
}

/// A signer who has approved a message, by proposing it or by approving it,
/// can not approve it again: the second approval is refused as
/// `DuplicateApproval` and changes nothing.
pub proof fn lemma_second_approval_is_refused(wallet: WalletView, message: Seq<u8>, who: Seq<u8>)
    requires
        wallet.signers.contains(who),
    ensures
        wallet.propose_outcome(message, who) is Ok ==> wallet.propose(
            message,
            who,
        ).approve_outcome(message, who) == Err::<nat, WalletError>(WalletError::DuplicateApproval),
        wallet.approve_outcome(message, who) is Ok ==> {
            let approved = wallet.approve(message, who);
            &&& approved.approve_outcome(message, who) == Err::<nat, WalletError>(
                WalletError::DuplicateApproval,
            )
            &&& approved.approve(message, who) == approved
        },
{
}

/// Once the signing of a message was admitted and has run to its end, the
/// message is retired, however the work outside the engine ended: it is
/// neither pending nor annotated, and its text is listed neither among the
/// pending messages nor among those that can be signed.
pub proof fn lemma_signed_message_is_retired(
    registry: RegistryView,
    wallet_id: Seq<char>,
    text: Seq<char>,
)
    requires
        registry.sign_admitted(wallet_id, text),
    ensures
        ({
            let message = hex_decoded(text);
            let after = registry.sign(wallet_id, text).finish_sign(wallet_id, text);
            &&& after.wallets.contains_key(wallet_id)
            &&& !after.wallets[wallet_id].pending.contains_key(message)
            &&& !after.wallets[wallet_id].metadata.contains_key(message)
            &&& !after.wallets[wallet_id].can_sign(message)
            &&& !hex_encoded_set(after.wallets[wallet_id].pending.dom()).contains(
                hex_encoded(message),
            )
            &&& !hex_encoded_set(after.wallets[wallet_id].signable()).contains(
                hex_encoded(message),
            )
        }),
{
    let message = hex_decoded(text);
    lemma_decode_encode(message);
    assert forall|m: Seq<u8>| hex_encoded(m) == hex_encoded(message) implies m == message by {
        lemma_decode_encode(m);
    }
}

/// A command executed by the engine retires its message at once: after the
/// request to sign it, with nothing left to do outside, the message is no
/// longer pending.
pub proof fn lemma_executed_command_is_retired(
    registry: RegistryView,
    wallet_id: Seq<char>,
    text: Seq<char>,
)
    requires
        registry.sign_admitted(wallet_id, text),
        !(command_of(hex_decoded(text)) is Transfer),
        !(command_of(hex_decoded(text)) is Opaque),
    ensures
        registry.sign(wallet_id, text).wallets.contains_key(wallet_id),
        !registry.sign(wallet_id, text).wallets[wallet_id].pending.contains_key(hex_decoded(text)),
        !registry.sign(wallet_id, text).wallets[wallet_id].metadata.contains_key(
            hex_decoded(text),
        ),
{
}

/// Signing the command that adds `who` makes `who` a signer of the wallet,
/// appends the wallet to the list of `who`, and retires the message.
pub proof fn lemma_add_signer_command(
    registry: RegistryView,
    wallet_id: Seq<char>,
    text: Seq<char>,
    who: Seq<u8>,
)
    requires
        registry.sign_admitted(wallet_id, text),
        command_of(hex_decoded(text)) == CommandView::AddSigner(who),
    ensures
        ({
            let after = registry.sign(wallet_id, text);
            &&& registry.sign_outcome(wallet_id, text) is Ok
            &&& after.wallets[wallet_id].signers == registry.wallets[wallet_id].signers.insert(who)
            &&& after.wallets[wallet_id].signers.contains(who)
            &&& after.wallets_for(who) == registry.wallets_for(who).push(wallet_id)
            &&& after.wallets_for(who).contains(wallet_id)
            &&& !after.wallets[wallet_id].pending.contains_key(hex_decoded(text))
        }),
{
    let list = registry.wallets_for(who).push(wallet_id);
    assert(list[list.len() - 1] == wallet_id);
}

/// Signing a command whose payload does not parse leaves signers, threshold
/// and address book as they were, needs no signature, and retires the message.
pub proof fn lemma_malformed_command(registry: RegistryView, wallet_id: Seq<char>, text: Seq<char>)
    requires
        registry.sign_admitted(wallet_id, text),
        command_of(hex_decoded(text)) == CommandView::Malformed,
    ensures
        ({
            let after = registry.sign(wallet_id, text);
            &&& registry.sign_outcome(wallet_id, text) == Ok::<
                SignStepView,
                WalletError,
            >(SignStepView::Done)
            &&& after.wallets[wallet_id].signers == registry.wallets[wallet_id].signers
            &&& after.wallets[wallet_id].threshold == registry.wallets[wallet_id].threshold
            &&& after.address_book == registry.address_book
            &&& !after.wallets[wallet_id].pending.contains_key(hex_decoded(text))
        }),
{
}

} // verus!
