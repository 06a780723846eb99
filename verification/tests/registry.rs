use q3x_backend::command::Command;
use q3x_backend::error::WalletError;
use q3x_backend::identity::Identity;
use q3x_backend::registry::{
    decode_verification_request, ExternalOutcome, SignStep, WalletRegistry,
};

fn registry_test_identity(tag: u8) -> Identity {
    Identity::from_bytes(vec![tag]).unwrap()
}

fn registry_with_wallet(threshold: u8) -> WalletRegistry {
    let mut registry = WalletRegistry::new();
    let signers = vec![
        registry_test_identity(1),
        registry_test_identity(2),
        registry_test_identity(3),
    ];
    assert_eq!(registry.create_wallet("w1", signers, threshold), Ok(()));
    registry
}

fn make_signable(registry: &mut WalletRegistry, text: &str) {
    assert_eq!(registry.propose("w1", text, &registry_test_identity(1)), Ok(()));
    assert_eq!(registry.approve("w1", text, &registry_test_identity(2)), Ok(2));
    assert!(registry.can_sign("w1", text));
}

fn signer_tags(registry: &WalletRegistry, wallet_id: &str) -> Vec<Vec<u8>> {
    let mut out: Vec<Vec<u8>> = registry
        .get_wallet(wallet_id)
        .unwrap()
        .get_signers()
        .iter()
        .map(|id| id.as_bytes().to_vec())
        .collect();
    out.sort();
    out
}

#[test]
fn scenario_propose_approve_sign() {
    let a = registry_test_identity(1);
    let b = registry_test_identity(2);
    let c = registry_test_identity(3);
    let mut registry = WalletRegistry::new();
    assert_eq!(registry.create_wallet("w1", vec![a.clone(), b.clone(), c], 2), Ok(()));
    assert_eq!(registry.propose("w1", "dead", &a), Ok(()));
    assert!(!registry.can_sign("w1", "dead"));
    assert_eq!(registry.approve("w1", "dead", &b), Ok(2));
    assert!(registry.can_sign("w1", "dead"));
    assert_eq!(registry.get_messages_to_sign("w1"), Ok(vec!["dead".to_string()]));
    assert_eq!(registry.sign("w1", "dead"), Ok(SignStep::Sign { message: vec![0xde, 0xad] }));
    assert_eq!(
        registry.finish_sign("w1", "dead", ExternalOutcome::Signature(vec![0x01, 0xff])),
        Ok("01ff".to_string())
    );
    assert_eq!(registry.get_proposed_messages("w1"), Ok(vec![]));
    assert_eq!(registry.get_messages_to_sign("w1"), Ok(vec![]));
    assert!(!registry.can_sign("w1", "dead"));
}

#[test]
fn scenario_threshold_above_signers_is_refused() {
    let mut registry = WalletRegistry::new();
    let signers = vec![registry_test_identity(1), registry_test_identity(2)];
    assert_eq!(registry.create_wallet("w1", signers, 3), Err(WalletError::ThresholdInvalid));
    assert!(registry.get_wallet("w1").is_none());
    assert!(registry.get_wallets_for_principal(&registry_test_identity(1)).is_empty());
}

#[test]
fn create_wallet_refuses_threshold_zero() {
    let mut registry = WalletRegistry::new();
    assert_eq!(
        registry.create_wallet("w1", vec![registry_test_identity(1)], 0),
        Err(WalletError::ThresholdInvalid)
    );
    assert_eq!(registry.create_wallet("w1", vec![], 0), Err(WalletError::ThresholdInvalid));
    assert_eq!(registry.create_wallet("w1", vec![], 1), Err(WalletError::ThresholdInvalid));
}

#[test]
fn create_wallet_counts_distinct_signers() {
    let mut registry = WalletRegistry::new();
    let a = registry_test_identity(1);
    assert_eq!(
        registry.create_wallet("w1", vec![a.clone(), a.clone()], 2),
        Err(WalletError::ThresholdInvalid)
    );
    assert_eq!(registry.create_wallet("w1", vec![a.clone(), a.clone()], 1), Ok(()));
    assert_eq!(signer_tags(&registry, "w1"), vec![vec![1]]);
    assert_eq!(registry.get_wallets_for_principal(&a), vec!["w1".to_string()]);
}

#[test]
fn create_wallet_refuses_a_taken_identifier() {
    let mut registry = registry_with_wallet(2);
    assert_eq!(
        registry.create_wallet("w1", vec![registry_test_identity(7)], 1),
        Err(WalletError::AlreadyExists)
    );
    assert_eq!(registry.get_wallet("w1").unwrap().get_threshold(), 2);
    assert_eq!(signer_tags(&registry, "w1"), vec![vec![1], vec![2], vec![3]]);
    assert!(registry.get_wallets_for_principal(&registry_test_identity(7)).is_empty());
}

#[test]
fn created_wallet_has_a_valid_threshold() {
    let registry = registry_with_wallet(3);
    let wallet = registry.get_wallet("w1").unwrap();
    assert_eq!(wallet.get_threshold(), 3);
    assert_eq!(wallet.get_signers().len(), 3);
}

#[test]
fn address_book_lists_wallets_in_order() {
    let mut registry = WalletRegistry::new();
    let a = registry_test_identity(1);
    let b = registry_test_identity(2);
    assert_eq!(registry.create_wallet("first", vec![a.clone()], 1), Ok(()));
    assert_eq!(registry.create_wallet("second", vec![b.clone(), a.clone()], 1), Ok(()));
    assert_eq!(
        registry.get_wallets_for_principal(&a),
        vec!["first".to_string(), "second".to_string()]
    );
    assert_eq!(registry.get_wallets_for_principal(&b), vec!["second".to_string()]);
    assert!(registry.get_wallets_for_principal(&registry_test_identity(3)).is_empty());
}

#[test]
fn operations_on_a_missing_wallet_report_it() {
    let mut registry = WalletRegistry::new();
    let a = registry_test_identity(1);
    assert_eq!(registry.propose("nowhere", "dead", &a), Err(WalletError::WalletNotFound));
    assert_eq!(registry.approve("nowhere", "dead", &a), Err(WalletError::WalletNotFound));
    assert_eq!(registry.sign("nowhere", "dead"), Err(WalletError::WalletNotFound));
    assert!(!registry.can_sign("nowhere", "dead"));
    assert_eq!(registry.get_messages_to_sign("nowhere"), Err(WalletError::WalletNotFound));
    assert_eq!(registry.get_proposed_messages("nowhere"), Err(WalletError::WalletNotFound));
    assert_eq!(registry.get_messages_with_signers("nowhere"), Err(WalletError::WalletNotFound));
    assert_eq!(
        registry.add_metadata("nowhere", "dead", "note".to_string(), &a),
        Err(WalletError::WalletNotFound)
    );
    assert_eq!(registry.get_metadata("nowhere", "dead", &a), Err(WalletError::WalletNotFound));
    assert_eq!(
        registry.finish_sign("nowhere", "dead", ExternalOutcome::Transferred),
        Ok(String::new())
    );
}

#[test]
fn malformed_text_is_an_invalid_message() {
    let mut registry = registry_with_wallet(2);
    let a = registry_test_identity(1);
    assert_eq!(registry.propose("w1", "abc", &a), Err(WalletError::InvalidMessage));
    assert_eq!(registry.propose("nowhere", "xyz", &a), Err(WalletError::InvalidMessage));
    assert_eq!(registry.approve("w1", "0g", &a), Err(WalletError::InvalidMessage));
    assert_eq!(registry.sign("w1", "d"), Err(WalletError::InvalidMessage));
    assert!(!registry.can_sign("w1", "d"));
    assert_eq!(
        registry.add_metadata("w1", "d", "note".to_string(), &a),
        Err(WalletError::InvalidMessage)
    );
    assert_eq!(registry.get_metadata("w1", "d", &a), Err(WalletError::InvalidMessage));
    assert_eq!(registry.get_proposed_messages("w1"), Ok(vec![]));
}

#[test]
fn upper_and_lower_case_text_name_the_same_message() {
    let mut registry = registry_with_wallet(2);
    assert_eq!(registry.propose("w1", "DEAD", &registry_test_identity(1)), Ok(()));
    assert_eq!(
        registry.propose("w1", "dead", &registry_test_identity(2)),
        Err(WalletError::AlreadyQueued)
    );
    assert_eq!(registry.approve("w1", "dEaD", &registry_test_identity(2)), Ok(2));
    assert_eq!(registry.get_proposed_messages("w1"), Ok(vec!["dead".to_string()]));
}

#[test]
fn sign_before_quorum_is_refused() {
    let mut registry = registry_with_wallet(2);
    assert_eq!(registry.sign("w1", "dead"), Err(WalletError::CannotSign));
    assert_eq!(registry.propose("w1", "dead", &registry_test_identity(1)), Ok(()));
    assert_eq!(registry.sign("w1", "dead"), Err(WalletError::CannotSign));
    assert_eq!(registry.get_proposed_messages("w1"), Ok(vec!["dead".to_string()]));
}

#[test]
fn message_is_retired_when_the_signer_fails() {
    let mut registry = registry_with_wallet(2);
    make_signable(&mut registry, "dead");
    assert_eq!(registry.sign("w1", "dead"), Ok(SignStep::Sign { message: vec![0xde, 0xad] }));
    assert_eq!(registry.get_proposed_messages("w1"), Ok(vec!["dead".to_string()]));
    assert_eq!(
        registry.finish_sign("w1", "dead", ExternalOutcome::Failed("signer down".to_string())),
        Err(WalletError::ExternalFailure("signer down".to_string()))
    );
    assert_eq!(registry.get_proposed_messages("w1"), Ok(vec![]));
    assert_eq!(registry.get_messages_to_sign("w1"), Ok(vec![]));
    assert_eq!(registry.propose("w1", "dead", &registry_test_identity(1)), Ok(()));
}

#[test]
fn add_signer_command_takes_effect_when_signed() {
    let mut registry = registry_with_wallet(2);
    let newcomer = registry_test_identity(7);
    let text = registry.add_signer("w1", &newcomer, &registry_test_identity(1));
    assert_eq!(text, hex::encode(format!("ADD_SIGNER::{}", newcomer.to_text())));
    assert_eq!(registry.get_proposed_messages("w1"), Ok(vec![text.clone()]));
    assert_eq!(registry.approve("w1", &text, &registry_test_identity(2)), Ok(2));
    assert_eq!(registry.sign("w1", &text), Ok(SignStep::Done));
    assert_eq!(signer_tags(&registry, "w1"), vec![vec![1], vec![2], vec![3], vec![7]]);
    assert_eq!(registry.get_wallets_for_principal(&newcomer), vec!["w1".to_string()]);
    assert_eq!(registry.get_proposed_messages("w1"), Ok(vec![]));
    assert_eq!(registry.get_wallet("w1").unwrap().get_threshold(), 2);
}

#[test]
fn remove_signer_command_takes_effect_when_signed() {
    let mut registry = registry_with_wallet(2);
    let leaving = registry_test_identity(3);
    let text = registry.remove_signer("w1", &leaving, &registry_test_identity(1));
    assert_eq!(text, hex::encode(format!("REMOVE_SIGNER::{}", leaving.to_text())));
    assert_eq!(registry.approve("w1", &text, &registry_test_identity(3)), Ok(2));
    assert_eq!(registry.sign("w1", &text), Ok(SignStep::Done));
    assert_eq!(signer_tags(&registry, "w1"), vec![vec![1], vec![2]]);
    assert!(registry.get_wallets_for_principal(&leaving).is_empty());
    assert_eq!(registry.get_wallets_for_principal(&registry_test_identity(1)), vec!["w1".to_string()]);
    assert_eq!(registry.get_proposed_messages("w1"), Ok(vec![]));
}

#[test]
fn removing_signers_does_not_lower_the_threshold() {
    let mut registry = registry_with_wallet(3);
    let text = registry.remove_signer("w1", &registry_test_identity(3), &registry_test_identity(1));
    assert_eq!(registry.approve("w1", &text, &registry_test_identity(2)), Ok(2));
    assert_eq!(registry.approve("w1", &text, &registry_test_identity(3)), Ok(3));
    assert_eq!(registry.sign("w1", &text), Ok(SignStep::Done));
    let wallet = registry.get_wallet("w1").unwrap();
    assert_eq!(wallet.get_threshold(), 3);
    assert_eq!(wallet.get_signers().len(), 2);
}

#[test]
fn set_threshold_command_takes_effect_when_signed() {
    let mut registry = registry_with_wallet(2);
    let text = registry.set_threshold("w1", 3, &registry_test_identity(1));
    assert_eq!(text, hex::encode("SET_THRESHOLD::3"));
    assert_eq!(registry.approve("w1", &text, &registry_test_identity(2)), Ok(2));
    assert_eq!(registry.sign("w1", &text), Ok(SignStep::Done));
    assert_eq!(registry.get_wallet("w1").unwrap().get_threshold(), 3);
    assert_eq!(registry.get_proposed_messages("w1"), Ok(vec![]));
}

#[test]
fn set_threshold_command_out_of_range_changes_no_threshold() {
    let mut registry = registry_with_wallet(2);
    for (n, threshold) in [(0u8, 0u8), (1, 4), (2, 255)] {
        let text = registry.set_threshold("w1", threshold, &registry_test_identity(1));
        assert_eq!(registry.approve("w1", &text, &registry_test_identity(2)), Ok(2), "{}", n);
        assert_eq!(registry.sign("w1", &text), Err(WalletError::ThresholdInvalid));
        assert_eq!(registry.get_wallet("w1").unwrap().get_threshold(), 2);
        assert_eq!(registry.get_proposed_messages("w1"), Ok(vec![]));
    }
}

#[test]
fn transfer_command_is_handed_out_and_retired_on_success() {
    let mut registry = registry_with_wallet(2);
    let to = registry_test_identity(9);
    let text = registry.transfer("w1", 1_000_000, &to, &registry_test_identity(1));
    assert_eq!(text, hex::encode(format!("TRANSFER::1000000::{}", to.to_text())));
    assert_eq!(registry.approve("w1", &text, &registry_test_identity(2)), Ok(2));
    assert_eq!(
        registry.sign("w1", &text),
        Ok(SignStep::Transfer { amount: 1_000_000, to: to.clone() })
    );
    assert_eq!(registry.get_proposed_messages("w1"), Ok(vec![text.clone()]));
    assert_eq!(registry.finish_sign("w1", &text, ExternalOutcome::Transferred), Ok(String::new()));
    assert_eq!(registry.get_proposed_messages("w1"), Ok(vec![]));
}

#[test]
fn transfer_command_is_retired_on_failure() {
    let mut registry = registry_with_wallet(2);
    let to = registry_test_identity(9);
    let text = registry.transfer("w1", 5, &to, &registry_test_identity(1));
    assert_eq!(registry.approve("w1", &text, &registry_test_identity(2)), Ok(2));
    assert_eq!(registry.sign("w1", &text), Ok(SignStep::Transfer { amount: 5, to }));
    assert_eq!(
        registry.finish_sign(
            "w1",
            &text,
            ExternalOutcome::Failed("Transfer failed: insufficient funds".to_string())
        ),
        Err(WalletError::ExternalFailure("Transfer failed: insufficient funds".to_string()))
    );
    assert_eq!(registry.get_proposed_messages("w1"), Ok(vec![]));
}

#[test]
fn malformed_command_is_skipped_and_retired() {
    let mut registry = registry_with_wallet(2);
    for payload in ["ADD_SIGNER::nobody", "REMOVE_SIGNER::", "SET_THRESHOLD::many", "TRANSFER::1"] {
        let text = hex::encode(payload);
        make_signable(&mut registry, &text);
        assert_eq!(registry.sign("w1", &text), Ok(SignStep::Done));
        assert_eq!(signer_tags(&registry, "w1"), vec![vec![1], vec![2], vec![3]]);
        assert_eq!(registry.get_wallet("w1").unwrap().get_threshold(), 2);
        assert_eq!(registry.get_proposed_messages("w1"), Ok(vec![]));
    }
}

#[test]
fn command_proposal_by_an_outsider_changes_nothing() {
    let mut registry = registry_with_wallet(2);
    let text = registry.set_threshold("w1", 1, &registry_test_identity(9));
    assert_eq!(text, hex::encode("SET_THRESHOLD::1"));
    assert_eq!(registry.get_proposed_messages("w1"), Ok(vec![]));
    let text = registry.set_threshold("nowhere", 1, &registry_test_identity(1));
    assert_eq!(text, hex::encode("SET_THRESHOLD::1"));
}

#[test]
fn adding_a_signer_twice_lists_the_wallet_twice() {
    let mut registry = registry_with_wallet(1);
    let a = registry_test_identity(1);
    let text = registry.add_signer("w1", &a, &a);
    assert_eq!(registry.sign("w1", &text), Ok(SignStep::Done));
    assert_eq!(signer_tags(&registry, "w1"), vec![vec![1], vec![2], vec![3]]);
    assert_eq!(
        registry.get_wallets_for_principal(&a),
        vec!["w1".to_string(), "w1".to_string()]
    );
    let text = registry.remove_signer("w1", &a, &a);
    assert_eq!(registry.sign("w1", &text), Ok(SignStep::Done));
    assert!(registry.get_wallets_for_principal(&a).is_empty());
}

#[test]
fn messages_with_signers_lists_approvers() {
    let mut registry = registry_with_wallet(3);
    assert_eq!(registry.propose("w1", "01", &registry_test_identity(1)), Ok(()));
    assert_eq!(registry.approve("w1", "01", &registry_test_identity(3)), Ok(2));
    let mut listed = registry.get_messages_with_signers("w1").unwrap();
    assert_eq!(listed.len(), 1);
    let (text, mut approvers) = listed.remove(0);
    approvers.sort_by(|x, y| x.as_bytes().cmp(y.as_bytes()));
    assert_eq!(text, "01");
    assert_eq!(approvers, vec![registry_test_identity(1), registry_test_identity(3)]);
}

#[test]
fn metadata_through_the_registry() {
    let mut registry = registry_with_wallet(2);
    let a = registry_test_identity(1);
    let outsider = registry_test_identity(9);
    assert_eq!(
        registry.add_metadata("w1", "dead", "rent".to_string(), &a),
        Err(WalletError::NotQueued)
    );
    assert_eq!(registry.propose_with_metadata("w1", "dead", "rent".to_string(), &a), Ok(()));
    assert_eq!(registry.get_metadata("w1", "dead", &a), Ok("rent".to_string()));
    assert_eq!(registry.get_metadata("w1", "DEAD", &registry_test_identity(2)), Ok("rent".to_string()));
    assert_eq!(registry.get_metadata("w1", "dead", &outsider), Err(WalletError::MetadataNotFound));
    assert_eq!(registry.get_metadata("w1", "beef", &a), Err(WalletError::MetadataNotFound));
    assert_eq!(
        registry.propose_with_metadata("w1", "dead", "other".to_string(), &a),
        Err(WalletError::AlreadyQueued)
    );
    assert_eq!(registry.get_metadata("w1", "dead", &a), Ok("rent".to_string()));
    assert_eq!(
        registry.propose_with_metadata("w1", "beef", "x".to_string(), &outsider),
        Err(WalletError::NotASigner)
    );
}

#[test]
fn metadata_is_gone_after_signing() {
    let mut registry = registry_with_wallet(1);
    let a = registry_test_identity(1);
    assert_eq!(registry.propose_with_metadata("w1", "dead", "rent".to_string(), &a), Ok(()));
    assert_eq!(registry.sign("w1", "dead"), Ok(SignStep::Sign { message: vec![0xde, 0xad] }));
    assert_eq!(registry.get_metadata("w1", "dead", &a), Ok("rent".to_string()));
    assert_eq!(
        registry.finish_sign("w1", "dead", ExternalOutcome::Signature(vec![])),
        Ok(String::new())
    );
    assert_eq!(registry.get_metadata("w1", "dead", &a), Err(WalletError::MetadataNotFound));
}

#[test]
fn verification_request_is_decoded() {
    assert_eq!(decode_verification_request("dead", "01ff"), Ok((vec![0xde, 0xad], vec![1, 0xff])));
    assert_eq!(decode_verification_request("dea", "01ff"), Err(WalletError::InvalidMessage));
    assert_eq!(decode_verification_request("dead", "01f"), Err(WalletError::InvalidSignature));
    assert_eq!(decode_verification_request("xx", "yy"), Err(WalletError::InvalidMessage));
}

#[test]
fn errors_are_spelled_for_callers() {
    assert_eq!(WalletError::WalletNotFound.message(), "WalletNotFound");
    assert_eq!(WalletError::AlreadyExists.message(), "WalletAlreadyExists");
    assert_eq!(WalletError::AlreadyQueued.message(), "WalletMsgAlreadyQueued");
    assert_eq!(WalletError::NotQueued.message(), "WalletMsgNotQueued");
    assert_eq!(WalletError::NotASigner.message(), "WalletInvalidSignature");
    assert_eq!(WalletError::DuplicateApproval.message(), "WalletInvalidSignature");
    assert_eq!(WalletError::ThresholdInvalid.message(), "WalletSignersNotMatchThreshold");
    assert_eq!(WalletError::CannotSign.message(), "WalletCannotSign");
    assert_eq!(WalletError::InvalidMessage.message(), "InvalidMessage");
    assert_eq!(WalletError::InvalidSignature.message(), "InvalidSignature");
    assert_eq!(WalletError::MetadataNotFound.message(), "MetadataNotFound");
    assert_eq!(WalletError::ExternalFailure("boom".to_string()).message(), "boom");
}

#[test]
fn signing_twice_before_the_end_hands_the_message_out_twice() {
    let mut registry = registry_with_wallet(2);
    make_signable(&mut registry, "dead");
    assert_eq!(registry.sign("w1", "dead"), Ok(SignStep::Sign { message: vec![0xde, 0xad] }));
    assert_eq!(registry.sign("w1", "dead"), Ok(SignStep::Sign { message: vec![0xde, 0xad] }));
    assert_eq!(
        registry.finish_sign("w1", "dead", ExternalOutcome::Signature(vec![7])),
        Ok("07".to_string())
    );
    assert_eq!(registry.sign("w1", "dead"), Err(WalletError::CannotSign));
}

#[test]
fn execute_needs_a_signable_message() {
    let mut registry = registry_with_wallet(2);
    assert_eq!(
        registry.execute("nowhere", vec![1], Command::Malformed),
        Err(WalletError::WalletNotFound)
    );
    assert_eq!(
        registry.execute("w1", vec![1], Command::SetThreshold(1)),
        Err(WalletError::CannotSign)
    );
    assert_eq!(registry.propose("w1", "01", &registry_test_identity(1)), Ok(()));
    assert_eq!(
        registry.execute("w1", vec![1], Command::SetThreshold(1)),
        Err(WalletError::CannotSign)
    );
    assert_eq!(registry.get_wallet("w1").unwrap().get_threshold(), 2);
    assert_eq!(registry.get_proposed_messages("w1"), Ok(vec!["01".to_string()]));
}

#[test]
fn execute_carries_out_the_command_it_is_given() {
    let mut registry = registry_with_wallet(2);
    make_signable(&mut registry, "01");
    assert_eq!(registry.execute("w1", vec![1], Command::SetThreshold(3)), Ok(SignStep::Done));
    assert_eq!(registry.get_wallet("w1").unwrap().get_threshold(), 3);
    assert_eq!(registry.get_proposed_messages("w1"), Ok(vec![]));

    assert_eq!(registry.propose("w1", "02", &registry_test_identity(1)), Ok(()));
    assert_eq!(registry.approve("w1", "02", &registry_test_identity(2)), Ok(2));
    assert_eq!(registry.approve("w1", "02", &registry_test_identity(3)), Ok(3));
    let newcomer = registry_test_identity(8);
    assert_eq!(
        registry.execute("w1", vec![2], Command::AddSigner(newcomer.clone())),
        Ok(SignStep::Done)
    );
    assert_eq!(signer_tags(&registry, "w1"), vec![vec![1], vec![2], vec![3], vec![8]]);
    assert_eq!(registry.get_wallets_for_principal(&newcomer), vec!["w1".to_string()]);
    assert_eq!(registry.get_proposed_messages("w1"), Ok(vec![]));
}

#[test]
fn execute_hands_out_what_is_done_outside() {
    let mut registry = registry_with_wallet(1);
    assert_eq!(registry.propose("w1", "01", &registry_test_identity(1)), Ok(()));
    let to = registry_test_identity(9);
    assert_eq!(
        registry.execute("w1", vec![1], Command::Transfer { amount: 3, to: to.clone() }),
        Ok(SignStep::Transfer { amount: 3, to })
    );
    assert_eq!(
        registry.execute("w1", vec![1], Command::Opaque),
        Ok(SignStep::Sign { message: vec![1] })
    );
    assert_eq!(registry.get_proposed_messages("w1"), Ok(vec!["01".to_string()]));
}
