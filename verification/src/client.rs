//! The Sidetree DID method client: validates a create request, derives the
//! key commitments, assembles the Create operation, and wraps it in the
//! method-tagged transaction envelope.

use vstd::prelude::*;
use vstd::string::StringExecFns;

use crate::dids::{didcreate_wf, DIDCreate, DIDMethodError, DIDMethodTransaction};
use crate::json::{
    jval, jval_fields, lemma_jval_fields_index, lemma_jval_fields_len, wf_jval, JsonVal,
    JsonValue,
};
use crate::jwk::{jwk_within_limits, spec_jwk_has_private, spec_jwk_json, JWK};
use crate::operation::{op_jval, op_wf, Operation};
use crate::patches::{DIDStatePatch, PublicKeyJwk};
use crate::resolve::HTTPDIDResolver;
use crate::sidetree::{create_existing, spec_created};

verus! {

/// A DID resolver configuration for a Sidetree REST endpoint: the base URL
/// with the `identifiers/` suffix appended.
pub struct HTTPSidetreeDIDResolver {
    pub http_did_resolver: HTTPDIDResolver,
}

impl HTTPSidetreeDIDResolver {
    /// A resolver configuration under the given Sidetree API base URL.
    pub fn new(sidetree_api_url: &str) -> (r: Self)
        ensures
            r.http_did_resolver.endpoint@ == sidetree_api_url@ + "identifiers/"@,
    {
        let identifiers_url = sidetree_api_url.to_owned().concat("identifiers/");
        HTTPSidetreeDIDResolver { http_did_resolver: HTTPDIDResolver::new(identifiers_url.as_str()) }
    }
}

/// The Sidetree DID method client: an optional resolver configuration and an
/// optional REST endpoint, neither exercised by the create path.
pub struct SidetreeClient {
    pub resolver: Option<HTTPSidetreeDIDResolver>,
    pub endpoint: Option<String>,
}

/// Converts the request's optional keys to public key JWKs: both keys must be
/// present and free of private material; the update key is examined first.
fn new_did_state(update_key: &Option<JWK>, recovery_key: &Option<JWK>) -> (r: Result<
    (PublicKeyJwk, PublicKeyJwk),
    DIDMethodError,
>)
    requires
        match update_key {
            Option::Some(k) => jwk_within_limits(*k),
            Option::None => true,
        },
        match recovery_key {
            Option::Some(k) => jwk_within_limits(*k),
            Option::None => true,
        },
    ensures
        r is Ok <==> update_key is Some && recovery_key is Some && !spec_jwk_has_private(
            update_key.unwrap(),
        ) && !spec_jwk_has_private(recovery_key.unwrap()),
        match r {
            Result::Ok((u, rv)) => u.wf() && rv.wf() && u.jwk_val() == spec_jwk_json(
                update_key.unwrap(),
            ) && rv.jwk_val() == spec_jwk_json(recovery_key.unwrap()),
            Result::Err(e) => match e {
                DIDMethodError::MissingRequiredKey(which) => (update_key is None && which@
                    == "update"@) || (update_key is Some && recovery_key is None && which@
                    == "recovery"@),
                DIDMethodError::KeyConversionFailed { which, error } => update_key is Some
                    && recovery_key is Some && error is PrivateKeyParameters && (
                (spec_jwk_has_private(update_key.unwrap()) && which@ == "update"@) || (
                !spec_jwk_has_private(update_key.unwrap()) && spec_jwk_has_private(
                    recovery_key.unwrap(),
                ) && which@ == "recovery"@)),
                _ => false,
            },
        },
{
    let update = match update_key {
        Option::Some(k) => k,
        Option::None => {
            return Result::Err(DIDMethodError::MissingRequiredKey("update"));
        },
    };
    let recovery = match recovery_key {
        Option::Some(k) => k,
        Option::None => {
            return Result::Err(DIDMethodError::MissingRequiredKey("recovery"));
        },
    };
    let update_pk = match PublicKeyJwk::try_from_jwk(update) {
        Result::Ok(p) => p,
        Result::Err(e) => {
            return Result::Err(
                DIDMethodError::KeyConversionFailed { which: "update", error: e },
            );
        },
    };
    let recovery_pk = match PublicKeyJwk::try_from_jwk(recovery) {
        Result::Ok(p) => p,
        Result::Err(e) => {
            return Result::Err(
                DIDMethodError::KeyConversionFailed { which: "recovery", error: e },
            );
        },
    };
    Result::Ok((update_pk, recovery_pk))
}

/// What the Sidetree create operation promises of its result: options are
/// rejected by their first name; both keys must be present, public, and
/// structurally different; on success the envelope carries the operation
/// under `sidetreeOperation`, tagged with the method name.
pub open spec fn ion_create_post(c: DIDCreate, r: Result<
    DIDMethodTransaction,
    DIDMethodError,
>) -> bool {
    (r is Ok <==> c.options@.len() == 0 && c.update_key is Some && c.recovery_key is Some
        && !spec_jwk_has_private(c.update_key.unwrap()) && !spec_jwk_has_private(
        c.recovery_key.unwrap(),
    ) && spec_jwk_json(c.update_key.unwrap()) != spec_jwk_json(c.recovery_key.unwrap()))
        && match r {
        Result::Ok(tx) => tx.did_method@ == "ion"@ && (exists|op: Operation|
            spec_created(
                op,
                spec_jwk_json(c.update_key.unwrap()),
                spec_jwk_json(c.recovery_key.unwrap()),
                Seq::<DIDStatePatch>::empty(),
            ) && jval(tx.value) == JsonVal::Object(
                seq![("sidetreeOperation"@, #[trigger] op_jval(op))],
            )),
        Result::Err(e) => match e {
            DIDMethodError::OptionNotSupported { operation, option } => c.options@.len() > 0
                && operation@ == "create"@ && option@ == c.options@[0].0@,
            DIDMethodError::MissingRequiredKey(which) => c.options@.len() == 0 && ((
            c.update_key is None && which@ == "update"@) || (c.update_key is Some
                && c.recovery_key is None && which@ == "recovery"@)),
            DIDMethodError::KeyConversionFailed { which, error } => c.options@.len() == 0
                && c.update_key is Some && c.recovery_key is Some
                && error is PrivateKeyParameters && ((spec_jwk_has_private(
                c.update_key.unwrap(),
            ) && which@ == "update"@) || (!spec_jwk_has_private(c.update_key.unwrap())
                && spec_jwk_has_private(c.recovery_key.unwrap()) && which@ == "recovery"@)),
            DIDMethodError::SidetreeOperation(se) => se is KeysMustDiffer && c.options@.len()
                == 0 && c.update_key is Some && c.recovery_key is Some
                && !spec_jwk_has_private(c.update_key.unwrap()) && !spec_jwk_has_private(
                c.recovery_key.unwrap(),
            ) && spec_jwk_json(c.update_key.unwrap()) == spec_jwk_json(
                c.recovery_key.unwrap(),
            ),
            _ => false,
        },
    }
}

impl SidetreeClient {
    /// A client for the given optional Sidetree API URL.
    pub fn new(api_url_opt: Option<String>) -> (r: Self)
        ensures
            r.endpoint == api_url_opt,
            match api_url_opt {
                Option::Some(u) => match r.resolver {
                    Option::Some(res) => res.http_did_resolver.endpoint@ == u@
                        + "identifiers/"@,
                    Option::None => false,
                },
                Option::None => r.resolver is None,
            },
    {
        let resolver_opt = match &api_url_opt {
            Option::Some(url) => Option::Some(HTTPSidetreeDIDResolver::new(url.as_str())),
            Option::None => Option::None,
        };
        SidetreeClient { endpoint: api_url_opt, resolver: resolver_opt }
    }

    /// The method's name.
    pub fn name(&self) -> (r: &'static str)
        ensures
            r@ == "ion"@,
    {
        "ion"
    }

    /// Wraps an operation in the method-tagged transaction envelope
    /// `{"sidetreeOperation": <operation>}`.
    fn operation_to_transaction(op: Operation) -> (r: DIDMethodTransaction)
        requires
            op_wf(op),
        ensures
            r.did_method@ == "ion"@,
            jval(r.value) == JsonVal::Object(seq![("sidetreeOperation"@, op_jval(op))]),
            wf_jval(jval(r.value)),
    {
        let mut fields: Vec<(String, JsonValue)> = Vec::new();
        fields.push(("sidetreeOperation".to_owned(), op.to_json()));
        let value = JsonValue::Object(fields);
        proof {
            lemma_jval_fields_len(fields@);
            lemma_jval_fields_index(fields@, 0);
            assert(jval_fields(fields@) =~= seq![("sidetreeOperation"@, op_jval(op))]);
            let fs = jval_fields(fields@);
            assert forall|k: int| 0 <= k < fs.len() implies wf_jval(#[trigger] fs[k].1) by {
                assert(wf_jval(fs[k].1));
            }
            crate::json::lemma_obj_wf(fs);
        }
        DIDMethodTransaction { did_method: "ion".to_owned(), value }
    }

    /// Creates a Sidetree-based DID from the request: rejects any
    /// method-specific option, requires both the update and the recovery key,
    /// converts them to public key JWKs, assembles the Create operation, and
    /// wraps it in the transaction envelope.
    pub fn create(&self, create: DIDCreate) -> (r: Result<
        DIDMethodTransaction,
        DIDMethodError,
    >)
        requires
            didcreate_wf(create),
        ensures
            ion_create_post(create, r),
    {
        if create.options.len() > 0 {
            let opt = create.options[0].0.clone();
            return Result::Err(
                DIDMethodError::OptionNotSupported { operation: "create", option: opt },
            );
        }
        let state = new_did_state(&create.update_key, &create.recovery_key);
        match state {
            Result::Err(e) => Result::Err(e),
            Result::Ok((update_pk, recovery_pk)) => {
                let patches: Vec<DIDStatePatch> = Vec::new();
                match create_existing(&update_pk, &recovery_pk, patches) {
                    Result::Err(e) => Result::Err(DIDMethodError::SidetreeOperation(e)),
                    Result::Ok(operation) => {
                        let ghost gop = operation;
                        proof {
                            assert(op_wf(gop));
                        }
                        let tx = Self::operation_to_transaction(operation);
                        proof {
                            assert(spec_created(
                                gop,
                                spec_jwk_json(create.update_key.unwrap()),
                                spec_jwk_json(create.recovery_key.unwrap()),
                                Seq::<DIDStatePatch>::empty(),
                            ) && jval(tx.value) == JsonVal::Object(
                                seq![("sidetreeOperation"@, op_jval(gop))],
                            ));
                        }
                        Result::Ok(tx)
                    },
                }
            },
        }
    }
}

} // verus!
