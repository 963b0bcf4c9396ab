//! DID-creation transactions for a pluggable set of DID methods, centred on a
//! Sidetree-protocol client that assembles cryptographically committed,
//! canonicalized Create operations from caller-supplied key material.

pub mod cli;
pub mod client;
pub mod dids;
pub mod encoding;
pub mod json;
pub mod jwk;
pub mod metadata;
pub mod methods;
pub mod operation;
pub mod parse;
pub mod patches;
pub mod resolve;
pub mod sidetree;
pub mod uniqueness;
pub mod web;
