//! Privileged commands carried inside message payloads.
//!
//! A message that is valid UTF-8 and starts with one of four prefixes is a
//! command and is executed by the engine instead of being handed to the
//! external signer:
//!
//! | prefix            | payload                    |
//! |-------------------|----------------------------|
//! | `ADD_SIGNER::`    | identity text              |
//! | `REMOVE_SIGNER::` | identity text              |
//! | `SET_THRESHOLD::` | decimal number up to 255   |
//! | `TRANSFER::`      | `<amount>::<identity text>`|
//!
//! A command whose payload does not parse is still a command: it is recognised,
//! does nothing, and needs no signature. Every other message is opaque.

use crate::decimal::{
    all_decimal_digits, decimal_digits, decimal_value, is_decimal_digit, lemma_digits_round_trip,
    lemma_value_of_digits, parse_u64, parse_u8, render_u64,
};
use crate::identity::{principal_from_text, principal_text, Identity};
use vstd::prelude::*;
use vstd::slice::slice_subrange;
use vstd::string::StringSliceAdditionalSpecFns;
use vstd::utf8::{
    decode_utf8, decode_utf8_split, encode_utf8, encode_utf8_decode_utf8, encode_utf8_valid_utf8,
    is_ascii_chars_encode_utf8, is_char_boundary, is_leading_byte_width_1,
    partial_valid_utf8, partial_valid_utf8_extend_ascii_block, pop_first_scalar, valid_utf8,
    valid_utf8_concat, valid_utf8_split,
};

verus! {

/// What a message asks of the engine.
#[derive(Debug, PartialEq, Eq)]
pub enum Command {
    /// Add the identity to the signers.
    AddSigner(Identity),
    /// Remove the identity from the signers.
    RemoveSigner(Identity),
    /// Set the approval threshold.
    SetThreshold(u8),
    /// Transfer `amount` from the wallet to `to`.
    Transfer { amount: u64, to: Identity },
    /// A command whose payload does not parse: it is skipped.
    Malformed,
    /// No command: an ordinary message for the external signer.
    Opaque,
}

/// The mathematical content of a [`Command`].
pub enum CommandView {
    AddSigner(Seq<u8>),
    RemoveSigner(Seq<u8>),
    SetThreshold(u8),
    Transfer { amount: u64, to: Seq<u8> },
    Malformed,
    Opaque,
}

impl View for Command {
    type V = CommandView;

    open spec fn view(&self) -> CommandView {
        match self {
            Command::AddSigner(id) => CommandView::AddSigner(id@),
            Command::RemoveSigner(id) => CommandView::RemoveSigner(id@),
            Command::SetThreshold(n) => CommandView::SetThreshold(*n),
            Command::Transfer { amount, to } => CommandView::Transfer { amount: *amount, to: to@ },
            Command::Malformed => CommandView::Malformed,
            Command::Opaque => CommandView::Opaque,
        }
    }
}

impl Command {
    /// The command of an `ADD_SIGNER::` message whose payload parsed as given.
    pub fn add_signer(parsed: Option<Identity>) -> (r: Command)
        ensures
            r@ == match parsed {
                Some(id) => CommandView::AddSigner(id@),
                None => CommandView::Malformed,
            },
    {
        match parsed {
            Some(id) => Command::AddSigner(id),
            None => Command::Malformed,
        }
    }

    /// The command of a `REMOVE_SIGNER::` message whose payload parsed as given.
    pub fn remove_signer(parsed: Option<Identity>) -> (r: Command)
        ensures
            r@ == match parsed {
                Some(id) => CommandView::RemoveSigner(id@),
                None => CommandView::Malformed,
            },
    {
        match parsed {
            Some(id) => Command::RemoveSigner(id),
            None => Command::Malformed,
        }
    }

    /// The command of a `SET_THRESHOLD::` message whose payload parsed as given.
    pub fn set_threshold(parsed: Option<u8>) -> (r: Command)
        ensures
            r@ == match parsed {
                Some(threshold) => CommandView::SetThreshold(threshold),
                None => CommandView::Malformed,
            },
    {
        match parsed {
            Some(threshold) => Command::SetThreshold(threshold),
            None => Command::Malformed,
        }
    }

    /// The command of a `TRANSFER::` message whose fields parsed as given.
    pub fn transfer(amount: Option<u64>, to: Option<Identity>) -> (r: Command)
        ensures
            r@ == match (amount, to) {
                (Some(n), Some(id)) => CommandView::Transfer { amount: n, to: id@ },
                _ => CommandView::Malformed,
            },
    {
        match amount {
            Some(n) => match to {
                Some(id) => Command::Transfer { amount: n, to: id },
                None => Command::Malformed,
            },
            None => Command::Malformed,
        }
    }
}

/// The bytes of `ADD_SIGNER::`.
pub open spec fn add_signer_prefix() -> Seq<u8> {
    encode_utf8("ADD_SIGNER::"@)
}

/// The bytes of `REMOVE_SIGNER::`.
pub open spec fn remove_signer_prefix() -> Seq<u8> {
    encode_utf8("REMOVE_SIGNER::"@)
}

/// The bytes of `SET_THRESHOLD::`.
pub open spec fn set_threshold_prefix() -> Seq<u8> {
    encode_utf8("SET_THRESHOLD::"@)
}

/// The bytes of `TRANSFER::`.
pub open spec fn transfer_prefix() -> Seq<u8> {
    encode_utf8("TRANSFER::"@)
}

/// The bytes of `::`, which separates the fields of a payload.
pub open spec fn field_separator() -> Seq<u8> {
    seq![0x3a, 0x3a]
}

/// The length of the first field of `s`: the place of the first `::`, or the
/// length of `s` if it holds none.
pub open spec fn first_field_len(s: Seq<u8>) -> nat
    decreases s.len(),
{
    if s.len() < 2 {
        s.len()
    } else if s[0] == 0x3a && s[1] == 0x3a {
        0
    } else {
        1 + first_field_len(s.skip(1))
    }
}

/// The identity whose textual form is encoded in `bytes`, if there is one.
pub open spec fn identity_in(bytes: Seq<u8>) -> Option<Seq<u8>> {
    if valid_utf8(bytes) {
        principal_from_text(decode_utf8(bytes))
    } else {
        None
    }
}

/// The command that an `ADD_SIGNER::` payload stands for.
pub open spec fn add_signer_command(payload: Seq<u8>) -> CommandView {
    match identity_in(payload) {
        Some(id) => CommandView::AddSigner(id),
        None => CommandView::Malformed,
    }
}

/// The command that a `REMOVE_SIGNER::` payload stands for.
pub open spec fn remove_signer_command(payload: Seq<u8>) -> CommandView {
    match identity_in(payload) {
        Some(id) => CommandView::RemoveSigner(id),
        None => CommandView::Malformed,
    }
}

/// The command that a `SET_THRESHOLD::` payload stands for.
pub open spec fn set_threshold_command(payload: Seq<u8>) -> CommandView {
    match decimal_value(payload, u8::MAX as nat) {
        Some(n) => CommandView::SetThreshold(n as u8),
        None => CommandView::Malformed,
    }
}

/// The command that a `TRANSFER::` payload stands for. The payload is split at
/// `::`; the first field is the amount, the second the destination, and any
/// further field is ignored.
pub open spec fn transfer_command(payload: Seq<u8>) -> CommandView {
    let amount_len = first_field_len(payload) as int;
    if amount_len == payload.len() {
        CommandView::Malformed
    } else {
        let rest = payload.skip(amount_len + 2);
        let amount = decimal_value(payload.take(amount_len), u64::MAX as nat);
        let to = identity_in(rest.take(first_field_len(rest) as int));
        match (amount, to) {
            (Some(n), Some(id)) => CommandView::Transfer { amount: n as u64, to: id },
            _ => CommandView::Malformed,
        }
    }
}

/// The command that `message` stands for.
pub open spec fn command_of(message: Seq<u8>) -> CommandView {
    if !valid_utf8(message) {
        CommandView::Opaque
    } else if add_signer_prefix().is_prefix_of(message) {
        add_signer_command(message.skip(add_signer_prefix().len() as int))
    } else if remove_signer_prefix().is_prefix_of(message) {
        remove_signer_command(message.skip(remove_signer_prefix().len() as int))
    } else if set_threshold_prefix().is_prefix_of(message) {
        set_threshold_command(message.skip(set_threshold_prefix().len() as int))
    } else if transfer_prefix().is_prefix_of(message) {
        transfer_command(message.skip(transfer_prefix().len() as int))
    } else {
        CommandView::Opaque
    }
}

/// Whether `message` is a command, executed by the engine, rather than a
/// message for the external signer.
pub open spec fn is_special(message: Seq<u8>) -> bool {
    command_of(message) != CommandView::Opaque
}

/// The message that asks to add `id` to the signers.
pub open spec fn add_signer_payload(id: Seq<u8>) -> Seq<u8> {
    add_signer_prefix() + encode_utf8(principal_text(id))
}

/// The message that asks to remove `id` from the signers.
pub open spec fn remove_signer_payload(id: Seq<u8>) -> Seq<u8> {
    remove_signer_prefix() + encode_utf8(principal_text(id))
}

/// The message that asks to set the threshold to `threshold`.
pub open spec fn set_threshold_payload(threshold: u8) -> Seq<u8> {
    set_threshold_prefix() + decimal_digits(threshold as nat)
}

/// The message that asks to transfer `amount` to `to`.
pub open spec fn transfer_payload(amount: u64, to: Seq<u8>) -> Seq<u8> {
    transfer_prefix() + decimal_digits(amount as nat) + field_separator() + encode_utf8(
        principal_text(to),
    )
}

/// `core::str::from_utf8`: succeeds exactly on valid UTF-8, and the text it
/// yields is made of the very bytes it was given.
#[verifier::external_body]
fn utf8_text(bytes: &[u8]) -> (r: Option<&str>)
    ensures
        r is Some <==> valid_utf8(bytes@),
        r matches Some(text) ==> text.spec_bytes() == bytes@,
{
    match core::str::from_utf8(bytes) {
        Ok(text) => Some(text),
        Err(_) => None,
    }
}

fn starts_with(bytes: &[u8], prefix: &[u8]) -> (r: bool)
    ensures
        r == prefix@.is_prefix_of(bytes@),
{
    if prefix.len() > bytes.len() {
        return false;
    }
    let mut i: usize = 0;
    while i < prefix.len()
        invariant
            prefix.len() <= bytes.len(),
            i <= prefix.len(),
            forall|j: int| 0 <= j < i ==> prefix@[j] == bytes@[j],
        decreases prefix.len() - i,
    {
        if prefix[i] != bytes[i] {
            return false;
        }
        i = i + 1;
    }
    true
}

fn skip_bytes(bytes: &[u8], n: usize) -> (r: &[u8])
    requires
        n <= bytes@.len(),
    ensures
        r@ == bytes@.skip(n as int),
{
    slice_subrange(bytes, n, bytes.len())
}

fn take_bytes(bytes: &[u8], n: usize) -> (r: &[u8])
    requires
        n <= bytes@.len(),
    ensures
        r@ == bytes@.take(n as int),
{
    slice_subrange(bytes, 0, n)
}

fn field_len(bytes: &[u8]) -> (n: usize)
    ensures
        n == first_field_len(bytes@),
        n <= bytes@.len(),
        n < bytes@.len() ==> n + 2 <= bytes@.len(),
{
    let mut i: usize = 0;
    assert(bytes@.skip(0) =~= bytes@);
    while bytes.len() - i >= 2
        invariant
            i <= bytes.len(),
            first_field_len(bytes@) == i + first_field_len(bytes@.skip(i as int)),
        decreases bytes.len() - i,
    {
        if bytes[i] == 0x3a && bytes[i + 1] == 0x3a {
            return i;
        }
        assert(bytes@.skip(i as int).skip(1) =~= bytes@.skip(i + 1));
        i = i + 1;
    }
    bytes.len()
}

fn parse_identity(bytes: &[u8]) -> (r: Option<Identity>)
    ensures
        match r {
            Some(id) => identity_in(bytes@) == Some(id@),
            None => identity_in(bytes@) is None,
        },
{
    match utf8_text(bytes) {
        Some(text) => {
            proof {
                encode_utf8_decode_utf8(text@);
            }
            Identity::from_text(text)
        },
        None => None,
    }
}

fn parse_transfer(payload: &[u8]) -> (r: Command)
    ensures
        r@ == transfer_command(payload@),
{
    let amount_len = field_len(payload);
    if amount_len == payload.len() {
        return Command::Malformed;
    }
    let rest = skip_bytes(payload, amount_len + 2);
    let amount = parse_u64(take_bytes(payload, amount_len));
    let to = parse_identity(take_bytes(rest, field_len(rest)));
    Command::transfer(amount, to)
}

/// Reads the command that `message` stands for.
pub fn decode_command(message: &[u8]) -> (r: Command)
    ensures
        r@ == command_of(message@),
{
    if utf8_text(message).is_none() {
        return Command::Opaque;
    }
    let add = "ADD_SIGNER::".as_bytes();
    let remove = "REMOVE_SIGNER::".as_bytes();
    let threshold = "SET_THRESHOLD::".as_bytes();
    let transfer = "TRANSFER::".as_bytes();
    if starts_with(message, add) {
        Command::add_signer(parse_identity(skip_bytes(message, add.len())))
    } else if starts_with(message, remove) {
        Command::remove_signer(parse_identity(skip_bytes(message, remove.len())))
    } else if starts_with(message, threshold) {
        Command::set_threshold(parse_u8(skip_bytes(message, threshold.len())))
    } else if starts_with(message, transfer) {
        parse_transfer(skip_bytes(message, transfer.len()))
    } else {
        Command::Opaque
    }
}

fn join(head: &[u8], tail: &[u8]) -> (r: Vec<u8>)
    ensures
        r@ == head@ + tail@,
{
    let mut r: Vec<u8> = Vec::new();
    r.extend_from_slice(head);
    r.extend_from_slice(tail);
    r
}

/// Writes the message that asks to add `id` to the signers.
pub fn add_signer_message(id: &Identity) -> (r: Vec<u8>)
    ensures
        r@ == add_signer_payload(id@),
{
    let text = id.to_text();
    join("ADD_SIGNER::".as_bytes(), text.as_str().as_bytes())
}

/// Writes the message that asks to remove `id` from the signers.
pub fn remove_signer_message(id: &Identity) -> (r: Vec<u8>)
    ensures
        r@ == remove_signer_payload(id@),
{
    let text = id.to_text();
    join("REMOVE_SIGNER::".as_bytes(), text.as_str().as_bytes())
}

/// Writes the message that asks to set the threshold to `threshold`.
pub fn set_threshold_message(threshold: u8) -> (r: Vec<u8>)
    ensures
        r@ == set_threshold_payload(threshold),
{
    let digits = render_u64(threshold as u64);
    join("SET_THRESHOLD::".as_bytes(), digits.as_slice())
}

/// Writes the message that asks to transfer `amount` to `to`.
pub fn transfer_message(amount: u64, to: &Identity) -> (r: Vec<u8>)
    ensures
        r@ == transfer_payload(amount, to@),
{
    let digits = render_u64(amount);
    let text = to.to_text();
    let head = join("TRANSFER::".as_bytes(), digits.as_slice());
    let head = join(head.as_slice(), "::".as_bytes());
    proof {
        reveal_strlit("::");
        is_ascii_chars_encode_utf8("::"@);
    }
    join(head.as_slice(), text.as_str().as_bytes())
}

proof fn lemma_ascii_is_utf8(bytes: Seq<u8>)
    requires
        forall|i: int| 0 <= i < bytes.len() ==> #[trigger] bytes[i] < 0x80,
    ensures
        valid_utf8(bytes),
{
    assert forall|i: int| 0 <= i < bytes.len() implies #[trigger] is_leading_byte_width_1(
        bytes[i],
    ) by {}
    partial_valid_utf8_extend_ascii_block(bytes, 0, bytes.len() as int);
    assert(bytes.subrange(0, bytes.len() as int) =~= bytes);
}

proof fn lemma_prefix_bytes()
    ensures
        add_signer_prefix().len() == 12,
        add_signer_prefix()[0] == 0x41,
        remove_signer_prefix().len() == 15,
        remove_signer_prefix()[0] == 0x52,
        set_threshold_prefix().len() == 15,
        set_threshold_prefix()[0] == 0x53,
        transfer_prefix().len() == 10,
        transfer_prefix()[0] == 0x54,
        forall|i: int| 0 <= i < 12 ==> #[trigger] add_signer_prefix()[i] < 0x80,
        forall|i: int| 0 <= i < 15 ==> #[trigger] remove_signer_prefix()[i] < 0x80,
        forall|i: int| 0 <= i < 15 ==> #[trigger] set_threshold_prefix()[i] < 0x80,
        forall|i: int| 0 <= i < 10 ==> #[trigger] transfer_prefix()[i] < 0x80,
{
    reveal_strlit("ADD_SIGNER::");
    reveal_strlit("REMOVE_SIGNER::");
    reveal_strlit("SET_THRESHOLD::");
    reveal_strlit("TRANSFER::");
    is_ascii_chars_encode_utf8("ADD_SIGNER::"@);
    is_ascii_chars_encode_utf8("REMOVE_SIGNER::"@);
    is_ascii_chars_encode_utf8("SET_THRESHOLD::"@);
    is_ascii_chars_encode_utf8("TRANSFER::"@);
}

proof fn lemma_prefixed(prefix: Seq<u8>, payload: Seq<u8>)
    ensures
        prefix.is_prefix_of(prefix + payload),
        (prefix + payload).skip(prefix.len() as int) == payload,
{
}

/// The message written to set the threshold is read as the command to set that
/// threshold.
pub proof fn lemma_set_threshold_round_trip(threshold: u8)
    ensures
        command_of(set_threshold_payload(threshold)) == CommandView::SetThreshold(threshold),
{
    let digits = decimal_digits(threshold as nat);
    let message = set_threshold_payload(threshold);
    lemma_prefix_bytes();
    lemma_digits_round_trip(threshold as nat);
    lemma_value_of_digits(threshold as nat, u8::MAX as nat);
    lemma_prefixed(set_threshold_prefix(), digits);
    assert forall|i: int| 0 <= i < message.len() implies #[trigger] message[i] < 0x80 by {}
    lemma_ascii_is_utf8(message);
    assert(!add_signer_prefix().is_prefix_of(message));
    assert(!remove_signer_prefix().is_prefix_of(message));
}

/// The message written to add a signer is a command: it is read as the
/// command to add the identity that the written text stands for, and is
/// skipped if that text stands for none.
pub proof fn lemma_add_signer_round_trip(id: Seq<u8>)
    ensures
        command_of(add_signer_payload(id)) == match principal_from_text(principal_text(id)) {
            Some(read) => CommandView::AddSigner(read),
            None => CommandView::Malformed,
        },
{
    let text = encode_utf8(principal_text(id));
    lemma_prefix_bytes();
    lemma_prefixed(add_signer_prefix(), text);
    lemma_ascii_is_utf8(add_signer_prefix());
    encode_utf8_valid_utf8(principal_text(id));
    valid_utf8_concat(add_signer_prefix(), text);
    encode_utf8_decode_utf8(principal_text(id));
}

/// The message written to remove a signer is a command: it is read as the
/// command to remove the identity that the written text stands for, and is
/// skipped if that text stands for none.
pub proof fn lemma_remove_signer_round_trip(id: Seq<u8>)
    ensures
        command_of(remove_signer_payload(id)) == match principal_from_text(principal_text(id)) {
            Some(read) => CommandView::RemoveSigner(read),
            None => CommandView::Malformed,
        },
{
    let text = encode_utf8(principal_text(id));
    let message = remove_signer_payload(id);
    lemma_prefix_bytes();
    lemma_prefixed(remove_signer_prefix(), text);
    lemma_ascii_is_utf8(remove_signer_prefix());
    encode_utf8_valid_utf8(principal_text(id));
    valid_utf8_concat(remove_signer_prefix(), text);
    encode_utf8_decode_utf8(principal_text(id));
    assert(!add_signer_prefix().is_prefix_of(message));
}

proof fn lemma_amount_field(digits: Seq<u8>, tail: Seq<u8>)
    requires
        all_decimal_digits(digits),
    ensures
        first_field_len(digits + field_separator() + tail) == digits.len(),
    decreases digits.len(),
{
    let s = digits + field_separator() + tail;
    if digits.len() > 0 {
        assert(s.skip(1) =~= digits.skip(1) + field_separator() + tail);
        lemma_amount_field(digits.skip(1), tail);
    }
}

/// The message written to transfer an amount is a command: it is read as the
/// command to transfer that amount to the identity that the first field of
/// the written text stands for, and is skipped if that field stands for none.
pub proof fn lemma_transfer_round_trip(amount: u64, to: Seq<u8>)
    ensures
        ({
            let text = encode_utf8(principal_text(to));
            command_of(transfer_payload(amount, to)) == match identity_in(
                text.take(first_field_len(text) as int),
            ) {
                Some(read) => CommandView::Transfer { amount, to: read },
                None => CommandView::Malformed,
            }
        }),
{
    let digits = decimal_digits(amount as nat);
    let text = encode_utf8(principal_text(to));
    let head = transfer_prefix() + digits + field_separator();
    let payload = digits + field_separator() + text;
    let message = transfer_payload(amount, to);
    lemma_prefix_bytes();
    lemma_digits_round_trip(amount as nat);
    lemma_value_of_digits(amount as nat, u64::MAX as nat);
    assert(message =~= transfer_prefix() + payload);
    lemma_prefixed(transfer_prefix(), payload);
    assert forall|i: int| 0 <= i < head.len() implies #[trigger] head[i] < 0x80 by {}
    lemma_ascii_is_utf8(head);
    encode_utf8_valid_utf8(principal_text(to));
    valid_utf8_concat(head, text);
    assert(!add_signer_prefix().is_prefix_of(message));
    assert(!remove_signer_prefix().is_prefix_of(message));
    assert(!set_threshold_prefix().is_prefix_of(message));
    lemma_amount_field(digits, text);
    assert(payload.take(digits.len() as int) =~= digits);
    assert(payload.skip(digits.len() as int + 2) =~= text);
}

proof fn lemma_ascii_prefix_boundary(bytes: Seq<u8>, k: int)
    requires
        valid_utf8(bytes),
        0 <= k <= bytes.len(),
        forall|i: int| 0 <= i < k ==> #[trigger] bytes[i] < 0x80,
    ensures
        is_char_boundary(bytes, k),
    decreases k,
{
    if k > 0 {
        let rest = pop_first_scalar(bytes);
        assert forall|i: int| 0 <= i < k - 1 implies #[trigger] rest[i] < 0x80 by {}
        lemma_ascii_prefix_boundary(rest, k - 1);
    }
}

/// In a message that is valid UTF-8 and starts with ASCII bytes, what follows
/// those bytes is valid UTF-8 too, and the text of the message is the text of
/// the one followed by the text of the other.
pub proof fn lemma_text_after_prefix(message: Seq<u8>, prefix: Seq<u8>)
    requires
        valid_utf8(message),
        prefix.is_prefix_of(message),
        forall|i: int| 0 <= i < prefix.len() ==> #[trigger] prefix[i] < 0x80,
    ensures
        valid_utf8(prefix),
        valid_utf8(message.skip(prefix.len() as int)),
        decode_utf8(message) == decode_utf8(prefix) + decode_utf8(
            message.skip(prefix.len() as int),
        ),
{
    let k = prefix.len() as int;
    assert forall|i: int| 0 <= i < k implies #[trigger] message[i] < 0x80 by {
        assert(message.subrange(0, k)[i] == prefix[i]);
    }
    lemma_ascii_prefix_boundary(message, k);
    valid_utf8_split(message, k);
    decode_utf8_split(message, k);
}

/// A command to add a signer is read from the text of the message: the
/// message is valid UTF-8, its text starts with `ADD_SIGNER::`, and the rest of
/// its text is what is parsed as an identity.
pub proof fn lemma_add_signer_text(message: Seq<u8>)
    requires
        valid_utf8(message),
        add_signer_prefix().is_prefix_of(message),
    ensures
        "ADD_SIGNER::"@.is_prefix_of(decode_utf8(message)),
        command_of(message) == match principal_from_text(
            decode_utf8(message).skip("ADD_SIGNER::"@.len() as int),
        ) {
            Some(id) => CommandView::AddSigner(id),
            None => CommandView::Malformed,
        },
{
    lemma_prefix_bytes();
    lemma_text_after_prefix(message, add_signer_prefix());
    encode_utf8_decode_utf8("ADD_SIGNER::"@);
    let rest = decode_utf8(message.skip(12));
    assert((("ADD_SIGNER::"@) + rest).skip("ADD_SIGNER::"@.len() as int) =~= rest);
}

/// A command to remove a signer is read from the text of the message: the
/// message is valid UTF-8, its text starts with `REMOVE_SIGNER::`, and the
/// rest of its text is what is parsed as an identity.
pub proof fn lemma_remove_signer_text(message: Seq<u8>)
    requires
        valid_utf8(message),
        remove_signer_prefix().is_prefix_of(message),
    ensures
        "REMOVE_SIGNER::"@.is_prefix_of(decode_utf8(message)),
        command_of(message) == match principal_from_text(
            decode_utf8(message).skip("REMOVE_SIGNER::"@.len() as int),
        ) {
            Some(id) => CommandView::RemoveSigner(id),
            None => CommandView::Malformed,
        },
{
    lemma_prefix_bytes();
    lemma_text_after_prefix(message, remove_signer_prefix());
    encode_utf8_decode_utf8("REMOVE_SIGNER::"@);
    let rest = decode_utf8(message.skip(15));
    assert((("REMOVE_SIGNER::"@) + rest).subrange(0, "REMOVE_SIGNER::"@.len() as int)
        =~= "REMOVE_SIGNER::"@);
    assert((("REMOVE_SIGNER::"@) + rest).skip("REMOVE_SIGNER::"@.len() as int) =~= rest);
    assert(!add_signer_prefix().is_prefix_of(message));
}

} // verus!
