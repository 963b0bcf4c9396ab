//! The did:web method: a minimal DID method implementation whose create
//! transaction carries no method-specific payload.

use vstd::prelude::*;

use crate::dids::{DIDCreate, DIDMethodError, DIDMethodTransaction};
use crate::json::{jval, JsonValue};

verus! {

/// The did:web DID method.
pub struct DIDWEB;

/// What the did:web create operation promises of its result: the envelope is
/// tagged with the method name and carries no method-specific payload.
pub open spec fn web_create_post(r: Result<DIDMethodTransaction, DIDMethodError>) -> bool {
    match r {
        Result::Ok(tx) => tx.did_method@ == "web"@ && jval(tx.value) is Null,
        Result::Err(_) => false,
    }
}

impl DIDWEB {
    /// The method's name.
    pub fn name(&self) -> (r: &'static str)
        ensures
            r@ == "web"@,
    {
        "web"
    }

    /// Creates a did:web DID: a transaction envelope with an empty payload.
    pub fn create(&self, _create: DIDCreate) -> (r: Result<DIDMethodTransaction, DIDMethodError>)
        ensures
            web_create_post(r),
    {
        Result::Ok(
            DIDMethodTransaction {
                did_method: "web".to_owned(),
                value: JsonValue::Null,
            },
        )
    }
}

} // verus!
