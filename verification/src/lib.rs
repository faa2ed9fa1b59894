//! Client, server and witness documents outside the `.cc` container: their byte
//! layouts, the rules a document has to meet, and the decisions taken on them.
//!
//! The crate performs no I/O, reads no clock and no randomness, and makes no
//! cryptographic computation: what only a key or a hash can tell is handed to
//! the functions here as a plain value. Which signature is to be checked, and over
//! what, is told here ([`transcript`]).
//!
//! # Unknown fields
//!
//! An unknown critical tag is refused and an unknown optional tag is skipped
//! ([`unknown`]). Known field lengths, ordering, enumerations and message kinds
//! remain strict.

pub mod access;
pub mod action;
pub mod activation;
pub mod agent;
pub mod attestation;
pub mod attribute_rule;
pub mod bytes;
pub mod control;
pub mod directory;
pub mod error;
pub mod kem;
pub mod lease;
pub mod paths;
pub mod text;
pub mod tlv;
pub mod transcript;
pub mod unknown;
pub mod witness;
