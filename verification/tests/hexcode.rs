use q3x_backend::error::WalletError;
use q3x_backend::hexcode::{decode_message, encode_message, encode_messages};

#[test]
fn encode_uses_lower_case_digits() {
    assert_eq!(encode_message(&[0xde, 0xad, 0x00, 0x0f]), "dead000f");
}

#[test]
fn encode_of_nothing_is_empty() {
    assert_eq!(encode_message(&[]), "");
}

#[test]
fn encode_each_of_a_list() {
    let texts = encode_messages(&vec![vec![0x01], vec![], vec![0xab, 0xcd]]);
    assert_eq!(texts, vec!["01".to_string(), "".to_string(), "abcd".to_string()]);
}

#[test]
fn decode_accepts_both_cases() {
    assert_eq!(decode_message("DeAd"), Ok(vec![0xde, 0xad]));
    assert_eq!(decode_message("0123456789abcdefABCDEF"), Ok(vec![
        0x01, 0x23, 0x45, 0x67, 0x89, 0xab, 0xcd, 0xef, 0xab, 0xcd, 0xef,
    ]));
}

#[test]
fn decode_of_empty_text_is_empty() {
    assert_eq!(decode_message(""), Ok(vec![]));
}

#[test]
fn decode_refuses_odd_length() {
    assert_eq!(decode_message("abc"), Err(WalletError::InvalidMessage));
    assert_eq!(decode_message("a"), Err(WalletError::InvalidMessage));
}

#[test]
fn decode_refuses_other_characters() {
    assert_eq!(decode_message("zz"), Err(WalletError::InvalidMessage));
    assert_eq!(decode_message("0x12"), Err(WalletError::InvalidMessage));
    assert_eq!(decode_message("12 4"), Err(WalletError::InvalidMessage));
    assert_eq!(decode_message("é"), Err(WalletError::InvalidMessage));
}

#[test]
fn decode_undoes_encode() {
    let mut all: Vec<u8> = Vec::new();
    for b in 0..=255u8 {
        all.push(b);
    }
    assert_eq!(decode_message(&encode_message(&all)), Ok(all));
}

#[test]
fn encode_undoes_decode_on_lower_case_text() {
    let text = "00ff10a9deadbeef";
    assert_eq!(encode_message(&decode_message(text).unwrap()), text);
}

#[test]
fn encode_after_decode_lowers_upper_case_text() {
    assert_eq!(encode_message(&decode_message("AB").unwrap()), "ab");
}
