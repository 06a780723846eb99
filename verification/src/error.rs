//! The errors that wallet operations report.

use vstd::prelude::*;

verus! {

/// Why an operation on a wallet or on the registry was refused.
#[derive(Debug, PartialEq, Eq)]
pub enum WalletError {
    /// No wallet is registered under the given identifier.
    WalletNotFound,
    /// A wallet is already registered under the given identifier.
    AlreadyExists,
    /// The message is already pending in the wallet.
    AlreadyQueued,
    /// The message is not pending in the wallet.
    NotQueued,
    /// The acting identity is not a signer of the wallet.
    NotASigner,
    /// The signer has already approved the message.
    DuplicateApproval,
    /// The threshold is zero or exceeds the number of signers.
    ThresholdInvalid,
    /// The message has not gathered enough approvals to be signed.
    CannotSign,
    /// The message is not an even-length string of hexadecimal digits.
    InvalidMessage,
    /// The signature is not an even-length string of hexadecimal digits.
    InvalidSignature,
    /// No annotation is visible to the requester for the message.
    MetadataNotFound,
    /// The signing or transfer service reported the enclosed failure.
    ExternalFailure(String),
}

impl WalletError {
    /// The text under which the error is reported to callers. One who is no
    /// signer and one who approves twice are told the same.
    pub open spec fn spelling(self) -> Seq<char> {
        match self {
            WalletError::WalletNotFound => "WalletNotFound"@,
            WalletError::AlreadyExists => "WalletAlreadyExists"@,
            WalletError::AlreadyQueued => "WalletMsgAlreadyQueued"@,
            WalletError::NotQueued => "WalletMsgNotQueued"@,
            WalletError::NotASigner => "WalletInvalidSignature"@,
            WalletError::DuplicateApproval => "WalletInvalidSignature"@,
            WalletError::ThresholdInvalid => "WalletSignersNotMatchThreshold"@,
            WalletError::CannotSign => "WalletCannotSign"@,
            WalletError::InvalidMessage => "InvalidMessage"@,
            WalletError::InvalidSignature => "InvalidSignature"@,
            WalletError::MetadataNotFound => "MetadataNotFound"@,
            WalletError::ExternalFailure(reason) => reason@,
        }
    }

    /// The text under which the error is reported to callers.
    pub fn message(&self) -> (r: String)
        ensures
            r@ == self.spelling(),
    {
        match self {
            WalletError::WalletNotFound => "WalletNotFound".to_owned(),
            WalletError::AlreadyExists => "WalletAlreadyExists".to_owned(),
            WalletError::AlreadyQueued => "WalletMsgAlreadyQueued".to_owned(),
            WalletError::NotQueued => "WalletMsgNotQueued".to_owned(),
            WalletError::NotASigner => "WalletInvalidSignature".to_owned(),
            WalletError::DuplicateApproval => "WalletInvalidSignature".to_owned(),
            WalletError::ThresholdInvalid => "WalletSignersNotMatchThreshold".to_owned(),
            WalletError::CannotSign => "WalletCannotSign".to_owned(),
            WalletError::InvalidMessage => "InvalidMessage".to_owned(),
            WalletError::InvalidSignature => "InvalidSignature".to_owned(),
            WalletError::MetadataNotFound => "MetadataNotFound".to_owned(),
            WalletError::ExternalFailure(reason) => reason.clone(),
        }
    }
}

} // verus!
