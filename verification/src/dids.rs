//! The DID method capability contract's data: the create request, the
//! method-tagged transaction envelope, and the method error taxonomy.

use vstd::prelude::*;

use crate::json::{jval, key_lt, wf_jval, JsonValue};
use crate::jwk::{jwk_within_limits, JWK};
use crate::patches::PublicKeyJwkFromJWKError;
use crate::sidetree::SidetreeError;

verus! {

/// Errors having to do with DID handling.
#[derive(Debug)]
pub enum Error {
    /// Key mismatch.
    KeyMismatch,
}

/// A DID Create request: optional update, recovery and verification keys, and
/// method-specific options as name/value pairs in ascending name order.
pub struct DIDCreate {
    pub update_key: Option<JWK>,
    pub recovery_key: Option<JWK>,
    pub verification_key: Option<JWK>,
    pub options: Vec<(String, JsonValue)>,
}

/// A DID method transaction envelope: the method name and the
/// method-specific payload.
pub struct DIDMethodTransaction {
    pub did_method: String,
    pub value: JsonValue,
}

/// An error from a DID method operation. Each kind is distinct and stable, so
/// callers can branch on it rather than parse messages.
#[derive(Debug)]
pub enum DIDMethodError {
    /// The operation is not implemented for this DID method.
    NotImplemented(&'static str),
    /// A caller-supplied option is not supported for this operation.
    OptionNotSupported { operation: &'static str, option: String },
    /// A key the operation requires was not supplied.
    MissingRequiredKey(&'static str),
    /// A supplied key could not be converted to a public key JWK.
    KeyConversionFailed { which: &'static str, error: PublicKeyJwkFromJWKError },
    /// The Sidetree operation construction failed.
    SidetreeOperation(SidetreeError),
    /// No DID method of the given name is registered.
    UnknownMethod(String),
}

/// Well-formedness of an option list: names strictly ascending in canonical
/// order, values canonically well formed.
pub open spec fn options_wf(opts: Seq<(String, JsonValue)>) -> bool {
    (forall|i: int| 0 <= i < opts.len() ==> wf_jval(jval((#[trigger] opts[i]).1))) && (forall|
        i: int,
        j: int,
    |
        0 <= i < j < opts.len() ==> key_lt(opts[i].0@, opts[j].0@))
}

/// Well-formedness of a create request: ordered options and keys whose
/// coordinates the encoder can handle.
pub open spec fn didcreate_wf(c: DIDCreate) -> bool {
    options_wf(c.options@) && (match c.update_key {
        Option::Some(k) => jwk_within_limits(k),
        Option::None => true,
    }) && (match c.recovery_key {
        Option::Some(k) => jwk_within_limits(k),
        Option::None => true,
    }) && (match c.verification_key {
        Option::Some(k) => jwk_within_limits(k),
        Option::None => true,
    })
}

} // verus!
