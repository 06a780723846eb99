//! A multi-signature approval engine: wallets whose signers jointly authorise
//! messages, membership changes, threshold changes and transfers by reaching a
//! quorum of approvals.

pub mod command;
pub mod decimal;
pub mod error;
pub mod hexcode;
pub mod identity;
pub mod idset;
pub mod laws;
pub mod registry;
pub mod store;
pub mod wallet;
