use q3x_backend::command::{
    add_signer_message, decode_command, remove_signer_message, set_threshold_message,
    transfer_message, Command,
};
use q3x_backend::identity::Identity;

fn command_test_identity() -> Identity {
    Identity::from_text("2chl6-4hpzw-vqaaa-aaaaa-c").unwrap()
}

#[test]
fn add_signer_command_is_read() {
    assert_eq!(
        decode_command(b"ADD_SIGNER::2chl6-4hpzw-vqaaa-aaaaa-c"),
        Command::AddSigner(command_test_identity())
    );
}

#[test]
fn remove_signer_command_is_read() {
    assert_eq!(
        decode_command(b"REMOVE_SIGNER::2chl6-4hpzw-vqaaa-aaaaa-c"),
        Command::RemoveSigner(command_test_identity())
    );
}

#[test]
fn set_threshold_command_is_read() {
    assert_eq!(decode_command(b"SET_THRESHOLD::2"), Command::SetThreshold(2));
    assert_eq!(decode_command(b"SET_THRESHOLD::255"), Command::SetThreshold(255));
    assert_eq!(decode_command(b"SET_THRESHOLD::+3"), Command::SetThreshold(3));
}

#[test]
fn transfer_command_is_read() {
    assert_eq!(
        decode_command(b"TRANSFER::1000000000000000000::2chl6-4hpzw-vqaaa-aaaaa-c"),
        Command::Transfer { amount: 1_000_000_000_000_000_000, to: command_test_identity() }
    );
}

#[test]
fn transfer_command_ignores_further_fields() {
    assert_eq!(
        decode_command(b"TRANSFER::5::2chl6-4hpzw-vqaaa-aaaaa-c::memo"),
        Command::Transfer { amount: 5, to: command_test_identity() }
    );
}

#[test]
fn command_with_bad_payload_is_malformed() {
    assert_eq!(decode_command(b"ADD_SIGNER::"), Command::Malformed);
    assert_eq!(decode_command(b"ADD_SIGNER::nobody"), Command::Malformed);
    assert_eq!(decode_command(b"REMOVE_SIGNER::2chl6-4hpzw-vqaaa-aaaaa-d"), Command::Malformed);
    assert_eq!(decode_command(b"SET_THRESHOLD::"), Command::Malformed);
    assert_eq!(decode_command(b"SET_THRESHOLD::256"), Command::Malformed);
    assert_eq!(decode_command(b"SET_THRESHOLD::two"), Command::Malformed);
    assert_eq!(decode_command(b"SET_THRESHOLD:: 2"), Command::Malformed);
    assert_eq!(decode_command(b"TRANSFER::"), Command::Malformed);
    assert_eq!(decode_command(b"TRANSFER::5"), Command::Malformed);
    assert_eq!(decode_command(b"TRANSFER::5::"), Command::Malformed);
    assert_eq!(decode_command(b"TRANSFER::five::2chl6-4hpzw-vqaaa-aaaaa-c"), Command::Malformed);
    assert_eq!(decode_command(b"TRANSFER:::5::2chl6-4hpzw-vqaaa-aaaaa-c"), Command::Malformed);
    assert_eq!(decode_command(b"TRANSFER::5::nobody"), Command::Malformed);
    assert_eq!(
        decode_command(b"TRANSFER::18446744073709551616::2chl6-4hpzw-vqaaa-aaaaa-c"),
        Command::Malformed
    );
}

#[test]
fn other_messages_are_opaque() {
    assert_eq!(decode_command(b""), Command::Opaque);
    assert_eq!(decode_command(&[0xde, 0xad]), Command::Opaque);
    assert_eq!(decode_command(b"hello"), Command::Opaque);
    assert_eq!(decode_command(b"ADD_SIGNER:2chl6-4hpzw-vqaaa-aaaaa-c"), Command::Opaque);
    assert_eq!(decode_command(b"add_signer::2chl6-4hpzw-vqaaa-aaaaa-c"), Command::Opaque);
    assert_eq!(decode_command(b" ADD_SIGNER::2chl6-4hpzw-vqaaa-aaaaa-c"), Command::Opaque);
    assert_eq!(decode_command(b"SET_THRESHOLD"), Command::Opaque);
}

#[test]
fn message_that_is_not_utf8_is_opaque() {
    assert_eq!(decode_command(b"ADD_SIGNER::\xff"), Command::Opaque);
    assert_eq!(decode_command(b"SET_THRESHOLD::2\x80"), Command::Opaque);
    assert_eq!(decode_command(b"TRANSFER::5::2chl6-4hpzw-vqaaa-aaaaa-c::\xc3"), Command::Opaque);
}

#[test]
fn command_with_utf8_payload_is_malformed() {
    assert_eq!(decode_command("ADD_SIGNER::é".as_bytes()), Command::Malformed);
    assert_eq!(decode_command("SET_THRESHOLD::٣".as_bytes()), Command::Malformed);
}

#[test]
fn commands_are_written_as_text() {
    let id = command_test_identity();
    assert_eq!(add_signer_message(&id), b"ADD_SIGNER::2chl6-4hpzw-vqaaa-aaaaa-c".to_vec());
    assert_eq!(remove_signer_message(&id), b"REMOVE_SIGNER::2chl6-4hpzw-vqaaa-aaaaa-c".to_vec());
    assert_eq!(set_threshold_message(3), b"SET_THRESHOLD::3".to_vec());
    assert_eq!(set_threshold_message(0), b"SET_THRESHOLD::0".to_vec());
    assert_eq!(
        transfer_message(1_000_000, &id),
        b"TRANSFER::1000000::2chl6-4hpzw-vqaaa-aaaaa-c".to_vec()
    );
}

#[test]
fn written_commands_are_read_back() {
    let id = Identity::from_bytes(vec![9; 29]).unwrap();
    assert_eq!(decode_command(&add_signer_message(&id)), Command::AddSigner(id.clone()));
    assert_eq!(decode_command(&remove_signer_message(&id)), Command::RemoveSigner(id.clone()));
    for t in [0u8, 1, 9, 10, 200, 255] {
        assert_eq!(decode_command(&set_threshold_message(t)), Command::SetThreshold(t));
    }
    assert_eq!(
        decode_command(&transfer_message(u64::MAX, &id)),
        Command::Transfer { amount: u64::MAX, to: id }
    );
}

#[test]
fn commands_from_parsed_payloads() {
    let id = command_test_identity();
    assert_eq!(Command::add_signer(Some(id.clone())), Command::AddSigner(id.clone()));
    assert_eq!(Command::add_signer(None), Command::Malformed);
    assert_eq!(Command::remove_signer(Some(id.clone())), Command::RemoveSigner(id.clone()));
    assert_eq!(Command::remove_signer(None), Command::Malformed);
    assert_eq!(Command::set_threshold(Some(4)), Command::SetThreshold(4));
    assert_eq!(Command::set_threshold(None), Command::Malformed);
    assert_eq!(
        Command::transfer(Some(5), Some(id.clone())),
        Command::Transfer { amount: 5, to: id.clone() }
    );
    assert_eq!(Command::transfer(None, Some(id)), Command::Malformed);
    assert_eq!(Command::transfer(Some(5), None), Command::Malformed);
    assert_eq!(Command::transfer(None, None), Command::Malformed);
}
