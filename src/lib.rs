//! A threshold-signature verifier: an ordered list of public keys, a threshold,
//! and signatures collected over one message digest.
pub mod multisig;

pub use multisig::{threshold_met, Message, Multisig, PublicKey, Signature};
