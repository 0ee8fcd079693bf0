//! Deterministic, canonical binary encoding ("strict encoding") for
//! Bitcoin-protocol data structures, together with the commitment
//! proof abstraction that lets protocol data be committed into a
//! public key or script and later reconstructed and verified.

pub mod dbc;
pub mod error;
pub mod script;
pub mod strict;
pub mod transcode;
