//! A zero-knowledge proof lifecycle manager: provisioning of a structured
//! reference string, materialization of a witness map from caller strings,
//! a byte-exact witness codec, and validation of the inputs handed to the
//! proving and verifying backend.
//!
//! The cryptographic backend itself (polynomial commitments, the proving
//! protocol, elliptic-curve pairings) is an external collaborator: this
//! crate decides what to hand it and in what shape, and states those
//! decisions as contracts.

pub mod codec;
pub mod errors;
pub mod field;
pub mod init;
pub mod prove;
pub mod srs;
pub mod witness;
