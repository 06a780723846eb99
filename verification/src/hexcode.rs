//! Hexadecimal transport encoding of message bytes.
//!
//! Messages cross the boundary of the engine as strings of hexadecimal digits,
//! two per byte. Encoding always produces lower-case digits; decoding accepts
//! both cases.

use crate::error::WalletError;
use vstd::prelude::*;

verus! {

/// The sixteen digits that encoding produces, by value.
pub open spec fn lower_hex_digits() -> Seq<char> {
    seq!['0', '1', '2', '3', '4', '5', '6', '7', '8', '9', 'a', 'b', 'c', 'd', 'e', 'f']
}

/// Whether `c` is a digit that decoding accepts.
pub open spec fn is_hex_digit(c: char) -> bool {
    ('0' <= c && c <= '9') || ('a' <= c && c <= 'f') || ('A' <= c && c <= 'F')
}

/// Whether `c` is a digit that encoding produces.
pub open spec fn is_lower_hex_digit(c: char) -> bool {
    ('0' <= c && c <= '9') || ('a' <= c && c <= 'f')
}

/// The value, from 0 to 15, of a hexadecimal digit.
pub open spec fn hex_digit_value(c: char) -> int
    recommends
        is_hex_digit(c),
{
    if '0' <= c && c <= '9' {
        c as int - '0' as int
    } else if 'a' <= c && c <= 'f' {
        c as int - 'a' as int + 10
    } else {
        c as int - 'A' as int + 10
    }
}

/// Whether `text` is the encoding of some byte string: an even number of
/// hexadecimal digits and nothing else.
pub open spec fn is_hex_text(text: Seq<char>) -> bool {
    &&& text.len() % 2 == 0
    &&& forall|i: int| 0 <= i < text.len() ==> is_hex_digit(#[trigger] text[i])
}

/// Whether every character of `text` is a digit that encoding produces.
pub open spec fn is_lower_hex_text(text: Seq<char>) -> bool {
    &&& text.len() % 2 == 0
    &&& forall|i: int| 0 <= i < text.len() ==> is_lower_hex_digit(#[trigger] text[i])
}

/// The text that stands for `bytes`: for each byte its high digit, then its low digit.
pub open spec fn hex_encoded(bytes: Seq<u8>) -> Seq<char> {
    Seq::new(
        2 * bytes.len(),
        |i: int|
            if i % 2 == 0 {
                lower_hex_digits()[bytes[i / 2] as int / 16]
            } else {
                lower_hex_digits()[bytes[i / 2] as int % 16]
            },
    )
}

/// The bytes that `text` stands for.
pub open spec fn hex_decoded(text: Seq<char>) -> Seq<u8>
    recommends
        is_hex_text(text),
{
    Seq::new(
        text.len() / 2,
        |i: int| (16 * hex_digit_value(text[2 * i]) + hex_digit_value(text[2 * i + 1])) as u8,
    )
}

/// The texts that stand for each of `messages`, in order.
pub open spec fn hex_encoded_all(messages: Seq<Seq<u8>>) -> Seq<Seq<char>> {
    messages.map_values(|m: Seq<u8>| hex_encoded(m))
}

/// The texts that stand for the members of `messages`.
pub open spec fn hex_encoded_set(messages: Set<Seq<u8>>) -> Set<Seq<char>> {
    messages.map(|m: Seq<u8>| hex_encoded(m))
}

/// `hex::FromHexError`: why `hex::decode` refused a text. Nothing is read from it.
#[verifier::external_type_specification]
#[verifier::external_body]
pub struct ExFromHexError(hex::FromHexError);

/// `hex::encode`: the lower-case hexadecimal text of `bytes`, two digits per byte.
#[verifier::external_body]
fn hex_encode(bytes: &[u8]) -> (text: String)
    ensures
        text@ == hex_encoded(bytes@),
{
    hex::encode(bytes)
}

/// `hex::decode`: succeeds exactly on an even number of hexadecimal digits of
/// either case, and then yields one byte per pair of digits.
#[verifier::external_body]
fn hex_decode(text: &str) -> (r: Result<Vec<u8>, hex::FromHexError>)
    ensures
        r is Ok <==> is_hex_text(text@),
        r matches Ok(bytes) ==> bytes@ == hex_decoded(text@),
{
    hex::decode(text)
}

/// Encodes message bytes for transport.
pub fn encode_message(bytes: &[u8]) -> (text: String)
    ensures
        text@ == hex_encoded(bytes@),
{
    hex_encode(bytes)
}

/// Decodes a transported message; anything but an even number of hexadecimal
/// digits is refused as `InvalidMessage`.
pub fn decode_message(text: &str) -> (r: Result<Vec<u8>, WalletError>)
    ensures
        match r {
            Ok(bytes) => is_hex_text(text@) && bytes@ == hex_decoded(text@),
            Err(e) => !is_hex_text(text@) && e == WalletError::InvalidMessage,
        },
{
    match hex_decode(text) {
        Ok(bytes) => Ok(bytes),
        Err(_) => Err(WalletError::InvalidMessage),
    }
}

/// Each digit that encoding produces decodes to the value it was produced from.
pub proof fn lemma_digit_round_trip(v: int)
    requires
        0 <= v < 16,
    ensures
        is_lower_hex_digit(lower_hex_digits()[v]),
        hex_digit_value(lower_hex_digits()[v]) == v,
{
}

/// Each lower-case digit is the digit that encoding produces for its value.
pub proof fn lemma_value_round_trip(c: char)
    requires
        is_lower_hex_digit(c),
    ensures
        0 <= hex_digit_value(c) < 16,
        lower_hex_digits()[hex_digit_value(c)] == c,
{
}

/// Decoding undoes encoding: every byte string is recovered from its text.
pub proof fn lemma_decode_encode(bytes: Seq<u8>)
    ensures
        is_lower_hex_text(hex_encoded(bytes)),
        is_hex_text(hex_encoded(bytes)),
        hex_decoded(hex_encoded(bytes)) == bytes,
{
    let text = hex_encoded(bytes);
    assert forall|i: int| 0 <= i < text.len() implies is_lower_hex_digit(#[trigger] text[i]) by {
        lemma_digit_round_trip(bytes[i / 2] as int / 16);
        lemma_digit_round_trip(bytes[i / 2] as int % 16);
    }
    assert forall|k: int| 0 <= k < bytes.len() implies hex_decoded(text)[k] == bytes[k] by {
        lemma_digit_round_trip(bytes[k] as int / 16);
        lemma_digit_round_trip(bytes[k] as int % 16);
    }
}

/// Encoding undoes decoding on lower-case text: an even-length string of
/// lower-case hexadecimal digits is recovered from its bytes.
pub proof fn lemma_encode_decode(text: Seq<char>)
    requires
        is_lower_hex_text(text),
    ensures
        is_hex_text(text),
        hex_encoded(hex_decoded(text)) == text,
{
    let bytes = hex_decoded(text);
    assert forall|i: int| 0 <= i < text.len() implies hex_encoded(bytes)[i] == text[i] by {
        let k = i / 2;
        lemma_value_round_trip(text[2 * k]);
        lemma_value_round_trip(text[2 * k + 1]);
    }
}

/// Distinct byte strings have distinct texts, so a list of messages without
/// repetition is encoded as a list of texts without repetition, and the texts
/// of the list are the texts of its members.
pub proof fn lemma_encode_all(messages: Seq<Seq<u8>>)
    ensures
        hex_encoded_all(messages).to_set() == hex_encoded_set(messages.to_set()),
        messages.no_duplicates() ==> hex_encoded_all(messages).no_duplicates(),
{
    messages.lemma_to_set_map_commutes(|m: Seq<u8>| hex_encoded(m));
    if messages.no_duplicates() {
        let texts = hex_encoded_all(messages);
        assert forall|i: int, j: int| 0 <= i < texts.len() && 0 <= j < texts.len() && i != j implies texts[i]
            != texts[j] by {
            lemma_decode_encode(messages[i]);
            lemma_decode_encode(messages[j]);
        }
    }
}

/// Encodes each of `messages` for transport.
pub fn encode_messages(messages: &Vec<Vec<u8>>) -> (texts: Vec<String>)
    ensures
        texts.deep_view() == hex_encoded_all(messages.deep_view()),
{
    let mut texts: Vec<String> = Vec::new();
    let mut i: usize = 0;
    while i < messages.len()
        invariant
            i <= messages.len(),
            texts@.len() == i,
            forall|j: int| 0 <= j < i ==> (#[trigger] texts@[j])@ == hex_encoded(messages@[j]@),
        decreases messages.len() - i,
    {
        texts.push(encode_message(messages[i].as_slice()));
        i = i + 1;
    }
    assert forall|j: int| 0 <= j < texts@.len() implies texts.deep_view()[j] == hex_encoded_all(
        messages.deep_view(),
    )[j] by {}
    texts
}

} // verus!
