//! The command-line surface's data: subcommands for key and DID operations
//! and the arguments of the DID create command. Argument parsing and file
//! handling live outside this crate; these types carry the parsed values.

use vstd::prelude::*;

use crate::metadata::MetadataProperty;

verus! {

/// Arguments of the DID create command. Key fields name files holding JWKs,
/// loaded outside this crate.
pub struct DidCreateArgs {
    /// DID method name for the create operation.
    pub method: String,
    /// Secret for the create operation.
    pub secret: Option<String>,
    /// JWK file for the default verification method.
    pub verification_key: Option<String>,
    /// JWK file for DID update operations.
    pub update_key: Option<String>,
    /// JWK file for DID recovery and/or deactivate operations.
    pub recovery_key: Option<String>,
    /// Options for the create operation, as name/value properties.
    pub options: Vec<MetadataProperty>,
}

/// DID subcommands.
pub enum DidCmd {
    /// Create a new DID document.
    Create(DidCreateArgs),
}

/// Keypair generation subcommands.
pub enum KeyGenerateCmd {
    /// Generate and output a K-256 keypair in JWK format.
    Secp256k1,
}

/// Keypair subcommands.
pub enum KeyCmd {
    /// Generate and output a keypair in JWK format.
    Generate(KeyGenerateCmd),
}

/// Top-level subcommands.
pub enum DIDKitCmd {
    /// Subcommand for keypair operations.
    Key(KeyCmd),
    /// Subcommand for DID operations.
    Did(DidCmd),
}

} // verus!
