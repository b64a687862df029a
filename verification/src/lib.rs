//! Chain-of-custody transactions for physical assets: a signed `Transaction`
//! record, its canonical byte encoding, Ed25519 signature creation and
//! verification, the successor (chain-continuity) check, a JSON wire codec,
//! and a small content-hashing helper.

pub mod ascii;
pub mod b64;
pub mod ed25519;
pub mod hash;
pub mod json;
pub mod transaction;
