//! DID state patches: a closed set of patch-action variants describing
//! mutations to a DID document's public keys, services, or the whole document,
//! together with their canonical JSON forms.

use vstd::prelude::*;

use crate::json::{
    json_clone, json_eq, jval, jval_fields, jval_seq, key_lt, lemma_jval_fields_index,
    lemma_jval_fields_len, lemma_jval_seq_index, lemma_jval_seq_len, lemma_key_lt_ascii,
    wf_jval, JsonVal, JsonValue,
};
use crate::jwk::{jwk_to_json, jwk_within_limits, spec_jwk_has_private, spec_jwk_json, JWK};

verus! {

/// A service endpoint: a URL, or a JSON object.
pub enum ServiceEndpoint {
    Uri(String),
    Object(JsonValue),
}

/// A verification relationship of a public key entry.
pub enum VerificationRelationship {
    Authentication,
    AssertionMethod,
    KeyAgreement,
    CapabilityInvocation,
    CapabilityDelegation,
}

/// Error from converting a JWK to a [`PublicKeyJwk`].
#[derive(Debug)]
pub enum PublicKeyJwkFromJWKError {
    /// The JWK carries private key parameters, which a public key JWK must not.
    PrivateKeyParameters,
}

/// A restricted, commitment-scheme-ready wrapper around a JWK's canonical JSON
/// value. Construction rejects private key material, so a value of this type
/// never holds private fields. Equality is structural, by the canonical value.
pub struct PublicKeyJwk {
    jwk: JsonValue,
}

impl PublicKeyJwk {
    /// The JSON model value this public key JWK wraps.
    pub closed spec fn jwk_val(&self) -> JsonVal {
        jval(self.jwk)
    }

    /// The wrapped value is canonically well formed.
    pub closed spec fn wf(&self) -> bool {
        wf_jval(jval(self.jwk))
    }

    /// Converts a JWK to its commitment-ready JSON wrapper. A JWK holding
    /// private key parameters is rejected.
    pub fn try_from_jwk(jwk: &JWK) -> (r: Result<PublicKeyJwk, PublicKeyJwkFromJWKError>)
        requires
            jwk_within_limits(*jwk),
        ensures
            match r {
                Result::Ok(p) => !spec_jwk_has_private(*jwk) && p.jwk_val() == spec_jwk_json(*jwk)
                    && p.wf(),
                Result::Err(e) => e is PrivateKeyParameters && spec_jwk_has_private(*jwk),
            },
    {
        match &jwk.params {
            crate::jwk::Params::EC(p) => {
                if p.ecc_private_key.is_some() {
                    Result::Err(PublicKeyJwkFromJWKError::PrivateKeyParameters)
                } else {
                    Result::Ok(PublicKeyJwk { jwk: jwk_to_json(jwk) })
                }
            },
        }
    }

    /// Structural equality, by the canonical JSON value.
    pub fn equals(&self, other: &PublicKeyJwk) -> (r: bool)
        ensures
            r <==> self.jwk_val() == other.jwk_val(),
    {
        json_eq(&self.jwk, &other.jwk)
    }

    /// The wrapped JSON value, copied out.
    pub fn to_json(&self) -> (r: JsonValue)
        ensures
            jval(r) == self.jwk_val(),
            self.wf() ==> wf_jval(jval(r)),
    {
        json_clone(&self.jwk)
    }
}

/// Public key data of a verification method: a JWK or a multibase string.
pub enum PublicKey {
    PublicKeyJwk(PublicKeyJwk),
    PublicKeyMultibase(String),
}

/// A public key entry, used by the add-public-keys and replace patch actions.
pub struct PublicKeyEntry {
    pub id: String,
    pub type_: String,
    pub controller: Option<String>,
    pub public_key: PublicKey,
    pub purposes: Vec<VerificationRelationship>,
}

/// A service endpoint entry, used by the add-services and replace patch
/// actions.
pub struct ServiceEndpointEntry {
    pub id: String,
    pub type_: String,
    pub service_endpoint: ServiceEndpoint,
}

/// DID PKI metadata state, used by the replace patch action.
pub struct DocumentState {
    pub public_keys: Option<Vec<PublicKeyEntry>>,
    pub services: Option<Vec<ServiceEndpointEntry>>,
}

/// A DID state patch: one mutation instruction for a DID document, in one of
/// the six standard patch actions.
pub enum DIDStatePatch {
    AddPublicKeys { public_keys: Vec<PublicKeyEntry> },
    RemovePublicKeys { ids: Vec<String> },
    AddServices { services: Vec<ServiceEndpointEntry> },
    RemoveServices { ids: Vec<String> },
    Replace { document: DocumentState },
    IetfJsonPatch { patches: JsonValue },
}

/// The verification method type given to entries built from a JWK.
pub const VERIFICATION_METHOD_TYPE: &'static str = "JsonWebSignature2020";

/// The JSON name of a verification relationship.
pub open spec fn vr_name(v: VerificationRelationship) -> Seq<char> {
    match v {
        VerificationRelationship::Authentication => "authentication"@,
        VerificationRelationship::AssertionMethod => "assertionMethod"@,
        VerificationRelationship::KeyAgreement => "keyAgreement"@,
        VerificationRelationship::CapabilityInvocation => "capabilityInvocation"@,
        VerificationRelationship::CapabilityDelegation => "capabilityDelegation"@,
    }
}

/// The JSON form of a verification relationship.
pub open spec fn vr_jval(v: VerificationRelationship) -> JsonVal {
    JsonVal::Text(vr_name(v))
}

/// The JSON form of a service endpoint.
pub open spec fn endpoint_jval(e: ServiceEndpoint) -> JsonVal {
    match e {
        ServiceEndpoint::Uri(s) => JsonVal::Text(s@),
        ServiceEndpoint::Object(v) => jval(v),
    }
}

/// The member key under which public key data serializes.
pub open spec fn pk_key(k: PublicKey) -> Seq<char> {
    match k {
        PublicKey::PublicKeyJwk(_) => "publicKeyJwk"@,
        PublicKey::PublicKeyMultibase(_) => "publicKeyMultibase"@,
    }
}

/// The JSON form of public key data.
pub open spec fn pk_jval(k: PublicKey) -> JsonVal {
    match k {
        PublicKey::PublicKeyJwk(p) => p.jwk_val(),
        PublicKey::PublicKeyMultibase(s) => JsonVal::Text(s@),
    }
}

/// The JSON form of a list of verification relationships.
pub open spec fn purposes_jval(ps: Seq<VerificationRelationship>) -> JsonVal {
    JsonVal::Array(ps.map_values(|v: VerificationRelationship| vr_jval(v)))
}

/// The JSON form of a list of public key entries.
pub open spec fn pkentries_jval(es: Seq<PublicKeyEntry>) -> JsonVal {
    JsonVal::Array(es.map_values(|e: PublicKeyEntry| pkentry_jval(e)))
}

/// The JSON form of a list of service endpoint entries.
pub open spec fn sentries_jval(es: Seq<ServiceEndpointEntry>) -> JsonVal {
    JsonVal::Array(es.map_values(|e: ServiceEndpointEntry| sentry_jval(e)))
}

/// The JSON form of a public key entry: `controller` (if any), `id`, the
/// public key data, `purposes`, `type`, in canonical key order.
pub open spec fn pkentry_jval(e: PublicKeyEntry) -> JsonVal {
    let tail = seq![
        ("id"@, JsonVal::Text(e.id@)),
        (pk_key(e.public_key), pk_jval(e.public_key)),
        ("purposes"@, purposes_jval(e.purposes@)),
        ("type"@, JsonVal::Text(e.type_@)),
    ];
    match e.controller {
        Option::Some(c) => JsonVal::Object(seq![("controller"@, JsonVal::Text(c@))] + tail),
        Option::None => JsonVal::Object(tail),
    }
}

/// The JSON form of a service endpoint entry.
pub open spec fn sentry_jval(e: ServiceEndpointEntry) -> JsonVal {
    JsonVal::Object(
        seq![
            ("id"@, JsonVal::Text(e.id@)),
            ("serviceEndpoint"@, endpoint_jval(e.service_endpoint)),
            ("type"@, JsonVal::Text(e.type_@)),
        ],
    )
}

/// The JSON form of a document state: `publicKeys` and `services`, each
/// omitted when absent.
pub open spec fn document_jval(d: DocumentState) -> JsonVal {
    let pks = match d.public_keys {
        Option::Some(es) => seq![("publicKeys"@, pkentries_jval(es@))],
        Option::None => Seq::empty(),
    };
    let svs = match d.services {
        Option::Some(es) => seq![("services"@, sentries_jval(es@))],
        Option::None => Seq::empty(),
    };
    JsonVal::Object(pks + svs)
}

/// The JSON form of a list of id strings.
pub open spec fn ids_jval(ids: Seq<String>) -> JsonVal {
    JsonVal::Array(ids.map_values(|s: String| JsonVal::Text(s@)))
}

/// The JSON form of a DID state patch: the kebab-case `action` discriminant
/// and the action's payload, in canonical key order.
pub open spec fn patch_jval(p: DIDStatePatch) -> JsonVal {
    match p {
        DIDStatePatch::AddPublicKeys { public_keys } => JsonVal::Object(
            seq![
                ("action"@, JsonVal::Text("add-public-keys"@)),
                ("publicKeys"@, pkentries_jval(public_keys@)),
            ],
        ),
        DIDStatePatch::RemovePublicKeys { ids } => JsonVal::Object(
            seq![("action"@, JsonVal::Text("remove-public-keys"@)), ("ids"@, ids_jval(ids@))],
        ),
        DIDStatePatch::AddServices { services } => JsonVal::Object(
            seq![
                ("action"@, JsonVal::Text("add-services"@)),
                ("services"@, sentries_jval(services@)),
            ],
        ),
        DIDStatePatch::RemoveServices { ids } => JsonVal::Object(
            seq![("action"@, JsonVal::Text("remove-services"@)), ("ids"@, ids_jval(ids@))],
        ),
        DIDStatePatch::Replace { document } => JsonVal::Object(
            seq![("action"@, JsonVal::Text("replace"@)), ("document"@, document_jval(document))],
        ),
        DIDStatePatch::IetfJsonPatch { patches } => JsonVal::Object(
            seq![("action"@, JsonVal::Text("ietf-json-patch"@)), ("patches"@, jval(patches))],
        ),
    }
}

/// Well-formedness of the caller-supplied parts of a public key entry.
pub open spec fn pkentry_wf(e: PublicKeyEntry) -> bool {
    match e.public_key {
        PublicKey::PublicKeyJwk(p) => p.wf(),
        PublicKey::PublicKeyMultibase(_) => true,
    }
}

/// Well-formedness of the caller-supplied parts of a service endpoint entry.
pub open spec fn sentry_wf(e: ServiceEndpointEntry) -> bool {
    match e.service_endpoint {
        ServiceEndpoint::Uri(_) => true,
        ServiceEndpoint::Object(v) => wf_jval(jval(v)),
    }
}

/// Well-formedness of a document state.
pub open spec fn document_wf(d: DocumentState) -> bool {
    (match d.public_keys {
        Option::Some(es) => forall|i: int| 0 <= i < es@.len() ==> pkentry_wf(#[trigger] es@[i]),
        Option::None => true,
    }) && (match d.services {
        Option::Some(es) => forall|i: int| 0 <= i < es@.len() ==> sentry_wf(#[trigger] es@[i]),
        Option::None => true,
    })
}

/// Well-formedness of a patch's caller-supplied parts.
pub open spec fn patch_wf(p: DIDStatePatch) -> bool {
    match p {
        DIDStatePatch::AddPublicKeys { public_keys } => forall|i: int|
            0 <= i < public_keys@.len() ==> pkentry_wf(#[trigger] public_keys@[i]),
        DIDStatePatch::RemovePublicKeys { ids: _ } => true,
        DIDStatePatch::AddServices { services } => forall|i: int|
            0 <= i < services@.len() ==> sentry_wf(#[trigger] services@[i]),
        DIDStatePatch::RemoveServices { ids: _ } => true,
        DIDStatePatch::Replace { document } => document_wf(document),
        DIDStatePatch::IetfJsonPatch { patches } => wf_jval(jval(patches)),
    }
}

} // verus!

verus! {

/// The canonical order of the member keys used by the patch model.
proof fn lemma_patch_keys_sorted()
    ensures
        key_lt("action"@, "document"@),
        key_lt("action"@, "ids"@),
        key_lt("action"@, "patches"@),
        key_lt("action"@, "publicKeys"@),
        key_lt("action"@, "services"@),
        key_lt("controller"@, "id"@),
        key_lt("id"@, "publicKeyJwk"@),
        key_lt("id"@, "publicKeyMultibase"@),
        key_lt("publicKeyJwk"@, "purposes"@),
        key_lt("publicKeyMultibase"@, "purposes"@),
        key_lt("purposes"@, "type"@),
        key_lt("id"@, "serviceEndpoint"@),
        key_lt("serviceEndpoint"@, "type"@),
        key_lt("publicKeys"@, "services"@),
{
    reveal_strlit("action");
    reveal_strlit("document");
    reveal_strlit("ids");
    reveal_strlit("patches");
    reveal_strlit("publicKeys");
    reveal_strlit("services");
    reveal_strlit("controller");
    reveal_strlit("id");
    reveal_strlit("publicKeyJwk");
    reveal_strlit("publicKeyMultibase");
    reveal_strlit("purposes");
    reveal_strlit("type");
    reveal_strlit("serviceEndpoint");
    lemma_key_lt_ascii("action"@, "document"@, 0);
    lemma_key_lt_ascii("action"@, "ids"@, 0);
    lemma_key_lt_ascii("action"@, "patches"@, 0);
    lemma_key_lt_ascii("action"@, "publicKeys"@, 0);
    lemma_key_lt_ascii("action"@, "services"@, 0);
    lemma_key_lt_ascii("controller"@, "id"@, 0);
    lemma_key_lt_ascii("id"@, "publicKeyJwk"@, 0);
    lemma_key_lt_ascii("id"@, "publicKeyMultibase"@, 0);
    lemma_key_lt_ascii("publicKeyJwk"@, "purposes"@, 2);
    lemma_key_lt_ascii("publicKeyMultibase"@, "purposes"@, 2);
    lemma_key_lt_ascii("purposes"@, "type"@, 0);
    lemma_key_lt_ascii("id"@, "serviceEndpoint"@, 0);
    lemma_key_lt_ascii("serviceEndpoint"@, "type"@, 0);
    lemma_key_lt_ascii("publicKeys"@, "services"@, 0);
}

/// The JSON text of a verification relationship.
fn vr_to_json(v: &VerificationRelationship) -> (r: JsonValue)
    ensures
        jval(r) == vr_jval(*v),
{
    match v {
        VerificationRelationship::Authentication => JsonValue::Text("authentication".to_owned()),
        VerificationRelationship::AssertionMethod => JsonValue::Text("assertionMethod".to_owned()),
        VerificationRelationship::KeyAgreement => JsonValue::Text("keyAgreement".to_owned()),
        VerificationRelationship::CapabilityInvocation => JsonValue::Text(
            "capabilityInvocation".to_owned(),
        ),
        VerificationRelationship::CapabilityDelegation => JsonValue::Text(
            "capabilityDelegation".to_owned(),
        ),
    }
}

/// The JSON array of a list of verification relationships.
#[verifier::loop_isolation(false)]
fn purposes_to_json(ps: &Vec<VerificationRelationship>) -> (r: JsonValue)
    ensures
        jval(r) == purposes_jval(ps@),
        wf_jval(jval(r)),
{
    let mut out: Vec<JsonValue> = Vec::new();
    let mut i: usize = 0;
    while i < ps.len()
        invariant
            i <= ps.len(),
            out@.len() == i,
            forall|j: int| 0 <= j < i ==> jval(#[trigger] out@[j]) == vr_jval(ps@[j]),
        decreases ps.len() - i,
    {
        out.push(vr_to_json(&ps[i]));
        i += 1;
    }
    let r = JsonValue::Array(out);
    proof {
        lemma_jval_seq_len(out@);
        assert forall|j: int| 0 <= j < out@.len() implies #[trigger] jval_seq(out@)[j]
            == purposes_jval(ps@)->Array_0[j] by {
            lemma_jval_seq_index(out@, j);
        }
        assert(jval_seq(out@) =~= purposes_jval(ps@)->Array_0);
        assert(jval(r) == purposes_jval(ps@));
        assert forall|j: int| 0 <= j < jval_seq(out@).len() implies wf_jval(
            #[trigger] jval_seq(out@)[j],
        ) by {
            lemma_jval_seq_index(out@, j);
        }
        assert(wf_jval(jval(r)));
    }
    r
}

/// The JSON form of a service endpoint.
fn endpoint_to_json(e: &ServiceEndpoint) -> (r: JsonValue)
    ensures
        jval(r) == endpoint_jval(*e),
{
    match e {
        ServiceEndpoint::Uri(s) => JsonValue::Text(s.clone()),
        ServiceEndpoint::Object(v) => json_clone(v),
    }
}

/// The JSON object of a service endpoint entry.
fn sentry_to_json(e: &ServiceEndpointEntry) -> (r: JsonValue)
    requires
        sentry_wf(*e),
    ensures
        jval(r) == sentry_jval(*e),
        wf_jval(jval(r)),
{
    let mut fields: Vec<(String, JsonValue)> = Vec::new();
    fields.push(("id".to_owned(), JsonValue::Text(e.id.clone())));
    fields.push(("serviceEndpoint".to_owned(), endpoint_to_json(&e.service_endpoint)));
    fields.push(("type".to_owned(), JsonValue::Text(e.type_.clone())));
    let r = JsonValue::Object(fields);
    proof {
        lemma_jval_fields_len(fields@);
        lemma_jval_fields_index(fields@, 0);
        lemma_jval_fields_index(fields@, 1);
        lemma_jval_fields_index(fields@, 2);
        assert(jval_fields(fields@) =~= sentry_jval(*e)->Object_0);
        assert(jval(r) == sentry_jval(*e));
        lemma_patch_keys_sorted();
        let fs = jval_fields(fields@);
        assert forall|k: int| 0 <= k < fs.len() implies wf_jval(#[trigger] fs[k].1) by {
            assert(wf_jval(fs[k].1));
        }
        assert forall|k: int| 0 <= k < fs.len() - 1 implies key_lt(
            #[trigger] fs[k].0,
            fs[k + 1].0,
        ) by {
            assert(key_lt(fs[k].0, fs[k + 1].0));
        }
        crate::json::lemma_obj_wf(fs);
    }
    r
}

/// The JSON object of a public key entry.
fn pkentry_to_json(e: &PublicKeyEntry) -> (r: JsonValue)
    requires
        pkentry_wf(*e),
    ensures
        jval(r) == pkentry_jval(*e),
        wf_jval(jval(r)),
{
    let mut fields: Vec<(String, JsonValue)> = Vec::new();
    match &e.controller {
        Option::Some(c) => {
            fields.push(("controller".to_owned(), JsonValue::Text(c.clone())));
        },
        Option::None => {},
    }
    fields.push(("id".to_owned(), JsonValue::Text(e.id.clone())));
    match &e.public_key {
        PublicKey::PublicKeyJwk(p) => {
            fields.push(("publicKeyJwk".to_owned(), p.to_json()));
        },
        PublicKey::PublicKeyMultibase(s) => {
            fields.push(("publicKeyMultibase".to_owned(), JsonValue::Text(s.clone())));
        },
    }
    fields.push(("purposes".to_owned(), purposes_to_json(&e.purposes)));
    fields.push(("type".to_owned(), JsonValue::Text(e.type_.clone())));
    let r = JsonValue::Object(fields);
    proof {
        lemma_jval_fields_len(fields@);
        lemma_jval_fields_index(fields@, 0);
        lemma_jval_fields_index(fields@, 1);
        lemma_jval_fields_index(fields@, 2);
        lemma_jval_fields_index(fields@, 3);
        if e.controller is Some {
            lemma_jval_fields_index(fields@, 4);
        }
        assert(jval_fields(fields@) =~= pkentry_jval(*e)->Object_0);
        assert(jval(r) == pkentry_jval(*e));
        lemma_patch_keys_sorted();
        let fs = jval_fields(fields@);
        assert forall|k: int| 0 <= k < fs.len() implies wf_jval(#[trigger] fs[k].1) by {
            assert(wf_jval(fs[k].1));
        }
        assert forall|k: int| 0 <= k < fs.len() - 1 implies key_lt(
            #[trigger] fs[k].0,
            fs[k + 1].0,
        ) by {
            assert(key_lt(fs[k].0, fs[k + 1].0));
        }
        crate::json::lemma_obj_wf(fs);
    }
    r
}

/// The JSON array of a list of public key entries.
#[verifier::loop_isolation(false)]
fn pkentries_to_json(es: &Vec<PublicKeyEntry>) -> (r: JsonValue)
    requires
        forall|i: int| 0 <= i < es@.len() ==> pkentry_wf(#[trigger] es@[i]),
    ensures
        jval(r) == pkentries_jval(es@),
        wf_jval(jval(r)),
{
    let mut out: Vec<JsonValue> = Vec::new();
    let mut i: usize = 0;
    while i < es.len()
        invariant
            i <= es.len(),
            out@.len() == i,
            forall|j: int|
                0 <= j < i ==> jval(#[trigger] out@[j]) == pkentry_jval(es@[j]) && wf_jval(
                    jval(out@[j]),
                ),
        decreases es.len() - i,
    {
        out.push(pkentry_to_json(&es[i]));
        i += 1;
    }
    let r = JsonValue::Array(out);
    proof {
        lemma_jval_seq_len(out@);
        assert forall|j: int| 0 <= j < out@.len() implies #[trigger] jval_seq(out@)[j]
            == pkentries_jval(es@)->Array_0[j] by {
            lemma_jval_seq_index(out@, j);
        }
        assert(jval_seq(out@) =~= pkentries_jval(es@)->Array_0);
        assert(jval(r) == pkentries_jval(es@));
        assert forall|j: int| 0 <= j < jval_seq(out@).len() implies wf_jval(
            #[trigger] jval_seq(out@)[j],
        ) by {
            lemma_jval_seq_index(out@, j);
        }
        assert(wf_jval(jval(r)));
    }
    r
}

/// The JSON array of a list of service endpoint entries.
#[verifier::loop_isolation(false)]
fn sentries_to_json(es: &Vec<ServiceEndpointEntry>) -> (r: JsonValue)
    requires
        forall|i: int| 0 <= i < es@.len() ==> sentry_wf(#[trigger] es@[i]),
    ensures
        jval(r) == sentries_jval(es@),
        wf_jval(jval(r)),
{
    let mut out: Vec<JsonValue> = Vec::new();
    let mut i: usize = 0;
    while i < es.len()
        invariant
            i <= es.len(),
            out@.len() == i,
            forall|j: int|
                0 <= j < i ==> jval(#[trigger] out@[j]) == sentry_jval(es@[j]) && wf_jval(
                    jval(out@[j]),
                ),
        decreases es.len() - i,
    {
        out.push(sentry_to_json(&es[i]));
        i += 1;
    }
    let r = JsonValue::Array(out);
    proof {
        lemma_jval_seq_len(out@);
        assert forall|j: int| 0 <= j < out@.len() implies #[trigger] jval_seq(out@)[j]
            == sentries_jval(es@)->Array_0[j] by {
            lemma_jval_seq_index(out@, j);
        }
        assert(jval_seq(out@) =~= sentries_jval(es@)->Array_0);
        assert(jval(r) == sentries_jval(es@));
        assert forall|j: int| 0 <= j < jval_seq(out@).len() implies wf_jval(
            #[trigger] jval_seq(out@)[j],
        ) by {
            lemma_jval_seq_index(out@, j);
        }
        assert(wf_jval(jval(r)));
    }
    r
}

/// The JSON array of a list of id strings.
#[verifier::loop_isolation(false)]
fn ids_to_json(ids: &Vec<String>) -> (r: JsonValue)
    ensures
        jval(r) == ids_jval(ids@),
        wf_jval(jval(r)),
{
    let mut out: Vec<JsonValue> = Vec::new();
    let mut i: usize = 0;
    while i < ids.len()
        invariant
            i <= ids.len(),
            out@.len() == i,
            forall|j: int| 0 <= j < i ==> jval(#[trigger] out@[j]) == JsonVal::Text(ids@[j]@),
        decreases ids.len() - i,
    {
        out.push(JsonValue::Text(ids[i].clone()));
        i += 1;
    }
    let r = JsonValue::Array(out);
    proof {
        lemma_jval_seq_len(out@);
        assert forall|j: int| 0 <= j < out@.len() implies #[trigger] jval_seq(out@)[j]
            == ids_jval(ids@)->Array_0[j] by {
            lemma_jval_seq_index(out@, j);
        }
        assert(jval_seq(out@) =~= ids_jval(ids@)->Array_0);
        assert(jval(r) == ids_jval(ids@));
        assert forall|j: int| 0 <= j < jval_seq(out@).len() implies wf_jval(
            #[trigger] jval_seq(out@)[j],
        ) by {
            lemma_jval_seq_index(out@, j);
        }
        assert(wf_jval(jval(r)));
    }
    r
}

/// The JSON object of a document state.
fn document_to_json(d: &DocumentState) -> (r: JsonValue)
    requires
        document_wf(*d),
    ensures
        jval(r) == document_jval(*d),
        wf_jval(jval(r)),
{
    let mut fields: Vec<(String, JsonValue)> = Vec::new();
    match &d.public_keys {
        Option::Some(es) => {
            fields.push(("publicKeys".to_owned(), pkentries_to_json(es)));
        },
        Option::None => {},
    }
    match &d.services {
        Option::Some(es) => {
            fields.push(("services".to_owned(), sentries_to_json(es)));
        },
        Option::None => {},
    }
    let r = JsonValue::Object(fields);
    proof {
        lemma_jval_fields_len(fields@);
        if fields@.len() > 0 {
            lemma_jval_fields_index(fields@, 0);
        }
        if fields@.len() > 1 {
            lemma_jval_fields_index(fields@, 1);
        }
        assert(jval_fields(fields@) =~= document_jval(*d)->Object_0);
        assert(jval(r) == document_jval(*d));
        lemma_patch_keys_sorted();
        let fs = jval_fields(fields@);
        assert forall|k: int| 0 <= k < fs.len() implies wf_jval(#[trigger] fs[k].1) by {
            assert(wf_jval(fs[k].1));
        }
        assert forall|k: int| 0 <= k < fs.len() - 1 implies key_lt(
            #[trigger] fs[k].0,
            fs[k + 1].0,
        ) by {
            assert(key_lt(fs[k].0, fs[k + 1].0));
        }
        crate::json::lemma_obj_wf(fs);
    }
    r
}

impl DIDStatePatch {
    /// The canonical JSON object of this patch: the kebab-case `action`
    /// discriminant and the action's payload. The result is well formed.
    pub fn to_json(&self) -> (r: JsonValue)
        requires
            patch_wf(*self),
        ensures
            jval(r) == patch_jval(*self),
            wf_jval(jval(r)),
    {
        let mut fields: Vec<(String, JsonValue)> = Vec::new();
        match self {
            DIDStatePatch::AddPublicKeys { public_keys } => {
                fields.push(("action".to_owned(), JsonValue::Text("add-public-keys".to_owned())));
                fields.push(("publicKeys".to_owned(), pkentries_to_json(public_keys)));
            },
            DIDStatePatch::RemovePublicKeys { ids } => {
                fields.push(("action".to_owned(), JsonValue::Text("remove-public-keys".to_owned())));
                fields.push(("ids".to_owned(), ids_to_json(ids)));
            },
            DIDStatePatch::AddServices { services } => {
                fields.push(("action".to_owned(), JsonValue::Text("add-services".to_owned())));
                fields.push(("services".to_owned(), sentries_to_json(services)));
            },
            DIDStatePatch::RemoveServices { ids } => {
                fields.push(("action".to_owned(), JsonValue::Text("remove-services".to_owned())));
                fields.push(("ids".to_owned(), ids_to_json(ids)));
            },
            DIDStatePatch::Replace { document } => {
                fields.push(("action".to_owned(), JsonValue::Text("replace".to_owned())));
                fields.push(("document".to_owned(), document_to_json(document)));
            },
            DIDStatePatch::IetfJsonPatch { patches } => {
                fields.push(("action".to_owned(), JsonValue::Text("ietf-json-patch".to_owned())));
                fields.push(("patches".to_owned(), json_clone(patches)));
            },
        }
        let r = JsonValue::Object(fields);
        proof {
            lemma_jval_fields_len(fields@);
            lemma_jval_fields_index(fields@, 0);
            lemma_jval_fields_index(fields@, 1);
            assert(jval_fields(fields@) =~= patch_jval(*self)->Object_0);
            assert(jval(r) == patch_jval(*self));
            lemma_patch_keys_sorted();
            let fs = jval_fields(fields@);
            assert forall|k: int| 0 <= k < fs.len() implies wf_jval(#[trigger] fs[k].1) by {
                assert(wf_jval(fs[k].1));
            }
            assert forall|k: int| 0 <= k < fs.len() - 1 implies key_lt(
                #[trigger] fs[k].0,
                fs[k + 1].0,
            ) by {
                assert(key_lt(fs[k].0, fs[k + 1].0));
            }
            crate::json::lemma_obj_wf(fs);
        }
        r
    }
}

} // verus!

verus! {

impl PublicKeyJwk {
    /// Wraps a parsed JSON value as a public key JWK, as the wire format
    /// carries it. Parsing is permissive, like the wire deserializer; the
    /// private-material check applies only to construction from a JWK.
    pub fn from_json(v: JsonValue) -> (r: PublicKeyJwk)
        ensures
            r.jwk_val() == jval(v),
            wf_jval(jval(v)) ==> r.wf(),
    {
        PublicKeyJwk { jwk: v }
    }
}

/// Reads a verification relationship back from its JSON text: it succeeds on
/// exactly the values some relationship serializes to.
fn vr_from_json(v: &JsonValue) -> (r: Option<VerificationRelationship>)
    ensures
        match r {
            Option::Some(x) => vr_jval(x) == jval(*v),
            Option::None => true,
        },
        (exists|x: VerificationRelationship| vr_jval(x) == jval(*v)) ==> r is Some,
{
    match v {
        JsonValue::Text(s) => {
            if crate::json::str_eq_chars(s.as_str(), "authentication") {
                Option::Some(VerificationRelationship::Authentication)
            } else if crate::json::str_eq_chars(s.as_str(), "assertionMethod") {
                Option::Some(VerificationRelationship::AssertionMethod)
            } else if crate::json::str_eq_chars(s.as_str(), "keyAgreement") {
                Option::Some(VerificationRelationship::KeyAgreement)
            } else if crate::json::str_eq_chars(s.as_str(), "capabilityInvocation") {
                Option::Some(VerificationRelationship::CapabilityInvocation)
            } else if crate::json::str_eq_chars(s.as_str(), "capabilityDelegation") {
                Option::Some(VerificationRelationship::CapabilityDelegation)
            } else {
                proof {
                    if exists|x: VerificationRelationship| vr_jval(x) == jval(*v) {
                        let x = choose|x: VerificationRelationship| vr_jval(x) == jval(*v);
                        assert(vr_name(x) == s@);
                        assert(false);
                    }
                }
                Option::None
            }
        },
        _ => {
            proof {
                crate::json::lemma_jval_variant(*v);
                if exists|x: VerificationRelationship| vr_jval(x) == jval(*v) {
                    let x = choose|x: VerificationRelationship| vr_jval(x) == jval(*v);
                    assert(jval(*v) is Text);
                    assert(false);
                }
            }
            Option::None
        },
    }
}

/// Reads a list of verification relationships back from a JSON array.
#[verifier::loop_isolation(false)]
fn purposes_from_json(v: &JsonValue) -> (r: Option<Vec<VerificationRelationship>>)
    ensures
        match r {
            Option::Some(ps) => purposes_jval(ps@) == jval(*v),
            Option::None => true,
        },
        (exists|ps: Vec<VerificationRelationship>| purposes_jval(ps@) == jval(*v)) ==> r is Some,
{
    match v {
        JsonValue::Array(elems) => {
            let mut out: Vec<VerificationRelationship> = Vec::new();
            let mut i: usize = 0;
            while i < elems.len()
                invariant
                    i <= elems.len(),
                    out@.len() == i,
                    forall|j: int| 0 <= j < i ==> vr_jval(#[trigger] out@[j]) == jval_seq(
                        elems@,
                    )[j],
                decreases elems.len() - i,
            {
                proof {
                    lemma_jval_seq_index(elems@, i as int);
                }
                match vr_from_json(&elems[i]) {
                    Option::Some(x) => {
                        out.push(x);
                    },
                    Option::None => {
                        proof {
                            if exists|ps: Vec<VerificationRelationship>| purposes_jval(ps@)
                                == jval(*v) {
                                let ps = choose|ps: Vec<VerificationRelationship>|
                                    purposes_jval(ps@) == jval(*v);
                                lemma_jval_seq_len(elems@);
                                assert(purposes_jval(ps@)->Array_0 == jval_seq(elems@));
                                assert(purposes_jval(ps@)->Array_0[i as int] == vr_jval(
                                    ps@[i as int],
                                ));
                                assert(vr_jval(ps@[i as int]) == jval(elems@[i as int]));
                                assert(false);
                            }
                        }
                        return Option::None;
                    },
                }
                i += 1;
            }
            proof {
                lemma_jval_seq_len(elems@);
                assert(purposes_jval(out@)->Array_0 =~= jval_seq(elems@));
            }
            Option::Some(out)
        },
        _ => {
            proof {
                crate::json::lemma_jval_variant(*v);
                if exists|ps: Vec<VerificationRelationship>| purposes_jval(ps@) == jval(*v) {
                    let ps = choose|ps: Vec<VerificationRelationship>| purposes_jval(ps@) == jval(
                        *v,
                    );
                    assert(jval(*v) is Array);
                    assert(false);
                }
            }
            Option::None
        },
    }
}

/// What any witness of a public key entry's JSON form looks like.
proof fn lemma_pkentry_shape(e: PublicKeyEntry, w: JsonVal)
    requires
        pkentry_jval(e) == w,
    ensures
        w is Object,
        w->Object_0.len() == 4 || w->Object_0.len() == 5,
        (w->Object_0.len() == 5) == (e.controller is Some),
        w->Object_0.len() == 5 ==> w->Object_0[0].0 == "controller"@ && w->Object_0[0].1 is Text,
        w->Object_0[w->Object_0.len() - 4].0 == "id"@,
        w->Object_0[w->Object_0.len() - 4].1 is Text,
        w->Object_0[w->Object_0.len() - 3].0 == "publicKeyJwk"@ || w->Object_0[w->Object_0.len()
            - 3].0 == "publicKeyMultibase"@,
        w->Object_0[w->Object_0.len() - 3].0 == "publicKeyMultibase"@ ==> w->Object_0[
            w->Object_0.len() - 3].1 is Text,
        w->Object_0[w->Object_0.len() - 2].0 == "purposes"@,
        w->Object_0[w->Object_0.len() - 2].1 == purposes_jval(e.purposes@),
        w->Object_0[w->Object_0.len() - 1].0 == "type"@,
        w->Object_0[w->Object_0.len() - 1].1 is Text,
{
    reveal_strlit("publicKeyJwk");
    reveal_strlit("publicKeyMultibase");
    assert("publicKeyJwk"@.len() != "publicKeyMultibase"@.len());
    match e.controller {
        Option::Some(_) => {
            assert(w->Object_0.len() == 5);
        },
        Option::None => {
            assert(w->Object_0.len() == 4);
        },
    }
}

/// Reads a public key entry back from its JSON object: it succeeds on
/// exactly the values some entry serializes to.
fn pkentry_from_json(v: &JsonValue) -> (r: Option<PublicKeyEntry>)
    ensures
        match r {
            Option::Some(e) => pkentry_jval(e) == jval(*v),
            Option::None => true,
        },
        (exists|e: PublicKeyEntry| pkentry_jval(e) == jval(*v)) ==> r is Some,
{
    let fields = match v {
        JsonValue::Object(fields) => fields,
        _ => {
            proof {
                crate::json::lemma_jval_variant(*v);
                if exists|e: PublicKeyEntry| pkentry_jval(e) == jval(*v) {
                    let e = choose|e: PublicKeyEntry| pkentry_jval(e) == jval(*v);
                    lemma_pkentry_shape(e, jval(*v));
                }
            }
            return Option::None;
        },
    };
    proof {
        lemma_jval_fields_len(fields@);
    }
    if fields.len() != 4 && fields.len() != 5 {
        proof {
            if exists|e: PublicKeyEntry| pkentry_jval(e) == jval(*v) {
                let e = choose|e: PublicKeyEntry| pkentry_jval(e) == jval(*v);
                lemma_pkentry_shape(e, jval(*v));
            }
        }
        return Option::None;
    }
    proof {
        lemma_jval_fields_index(fields@, 0);
        lemma_jval_fields_index(fields@, 1);
        lemma_jval_fields_index(fields@, 2);
        lemma_jval_fields_index(fields@, 3);
        if fields@.len() == 5 {
            lemma_jval_fields_index(fields@, 4);
        }
    }
    let mut at: usize = 0;
    let controller: Option<String> = if fields.len() == 5 {
        if !crate::json::str_eq_chars(fields[0].0.as_str(), "controller") {
            proof {
                if exists|e: PublicKeyEntry| pkentry_jval(e) == jval(*v) {
                    let e = choose|e: PublicKeyEntry| pkentry_jval(e) == jval(*v);
                    lemma_pkentry_shape(e, jval(*v));
                }
            }
            return Option::None;
        }
        let c = match &fields[0].1 {
            JsonValue::Text(c) => c.clone(),
            _ => {
                proof {
                    crate::json::lemma_jval_variant(fields@[0].1);
                    if exists|e: PublicKeyEntry| pkentry_jval(e) == jval(*v) {
                        let e = choose|e: PublicKeyEntry| pkentry_jval(e) == jval(*v);
                        lemma_pkentry_shape(e, jval(*v));
                    }
                }
                return Option::None;
            },
        };
        at = 1;
        Option::Some(c)
    } else {
        Option::None
    };
    if !crate::json::str_eq_chars(fields[at].0.as_str(), "id") {
        proof {
            if exists|e: PublicKeyEntry| pkentry_jval(e) == jval(*v) {
                let e = choose|e: PublicKeyEntry| pkentry_jval(e) == jval(*v);
                lemma_pkentry_shape(e, jval(*v));
            }
        }
        return Option::None;
    }
    let id = match &fields[at].1 {
        JsonValue::Text(s) => s.clone(),
        _ => {
            proof {
                crate::json::lemma_jval_variant(fields@[at as int].1);
                if exists|e: PublicKeyEntry| pkentry_jval(e) == jval(*v) {
                    let e = choose|e: PublicKeyEntry| pkentry_jval(e) == jval(*v);
                    lemma_pkentry_shape(e, jval(*v));
                }
            }
            return Option::None;
        },
    };
    let public_key: PublicKey = if crate::json::str_eq_chars(
        fields[at + 1].0.as_str(),
        "publicKeyJwk",
    ) {
        PublicKey::PublicKeyJwk(PublicKeyJwk::from_json(json_clone(&fields[at + 1].1)))
    } else if crate::json::str_eq_chars(fields[at + 1].0.as_str(), "publicKeyMultibase") {
        match &fields[at + 1].1 {
            JsonValue::Text(s) => PublicKey::PublicKeyMultibase(s.clone()),
            _ => {
                proof {
                    crate::json::lemma_jval_variant(fields@[at + 1].1);
                    if exists|e: PublicKeyEntry| pkentry_jval(e) == jval(*v) {
                        let e = choose|e: PublicKeyEntry| pkentry_jval(e) == jval(*v);
                        lemma_pkentry_shape(e, jval(*v));
                    }
                }
                return Option::None;
            },
        }
    } else {
        proof {
            if exists|e: PublicKeyEntry| pkentry_jval(e) == jval(*v) {
                let e = choose|e: PublicKeyEntry| pkentry_jval(e) == jval(*v);
                lemma_pkentry_shape(e, jval(*v));
            }
        }
        return Option::None;
    };
    if !crate::json::str_eq_chars(fields[at + 2].0.as_str(), "purposes") {
        proof {
            if exists|e: PublicKeyEntry| pkentry_jval(e) == jval(*v) {
                let e = choose|e: PublicKeyEntry| pkentry_jval(e) == jval(*v);
                lemma_pkentry_shape(e, jval(*v));
            }
        }
        return Option::None;
    }
    let purposes = match purposes_from_json(&fields[at + 2].1) {
        Option::Some(ps) => ps,
        Option::None => {
            proof {
                if exists|e: PublicKeyEntry| pkentry_jval(e) == jval(*v) {
                    let e = choose|e: PublicKeyEntry| pkentry_jval(e) == jval(*v);
                    lemma_pkentry_shape(e, jval(*v));
                    assert(purposes_jval(e.purposes@) == jval(fields@[at + 2].1));
                    assert(false);
                }
            }
            return Option::None;
        },
    };
    if !crate::json::str_eq_chars(fields[at + 3].0.as_str(), "type") {
        proof {
            if exists|e: PublicKeyEntry| pkentry_jval(e) == jval(*v) {
                let e = choose|e: PublicKeyEntry| pkentry_jval(e) == jval(*v);
                lemma_pkentry_shape(e, jval(*v));
            }
        }
        return Option::None;
    }
    let type_ = match &fields[at + 3].1 {
        JsonValue::Text(s) => s.clone(),
        _ => {
            proof {
                crate::json::lemma_jval_variant(fields@[at + 3].1);
                if exists|e: PublicKeyEntry| pkentry_jval(e) == jval(*v) {
                    let e = choose|e: PublicKeyEntry| pkentry_jval(e) == jval(*v);
                    lemma_pkentry_shape(e, jval(*v));
                }
            }
            return Option::None;
        },
    };
    let e = PublicKeyEntry { id, type_, controller, public_key, purposes };
    proof {
        lemma_jval_fields_len(fields@);
        lemma_jval_fields_index(fields@, 0);
        lemma_jval_fields_index(fields@, 1);
        lemma_jval_fields_index(fields@, 2);
        lemma_jval_fields_index(fields@, 3);
        if fields@.len() == 5 {
            lemma_jval_fields_index(fields@, 4);
        }
        assert(pkentry_jval(e)->Object_0 =~= jval_fields(fields@));
        assert(pkentry_jval(e) == jval(*v));
    }
    Option::Some(e)
}

/// What any witness of a service endpoint entry's JSON form looks like.
proof fn lemma_sentry_shape(e: ServiceEndpointEntry, w: JsonVal)
    requires
        sentry_jval(e) == w,
    ensures
        w is Object,
        w->Object_0.len() == 3,
        w->Object_0[0].0 == "id"@,
        w->Object_0[0].1 is Text,
        w->Object_0[1].0 == "serviceEndpoint"@,
        w->Object_0[2].0 == "type"@,
        w->Object_0[2].1 is Text,
{
}

/// Refutes a witness for a value whose shape the entry reader rejected.
proof fn lemma_sentry_none(v: JsonValue)
    requires
        !(jval(v) is Object && jval(v)->Object_0.len() == 3),
    ensures
        forall|e: ServiceEndpointEntry| sentry_jval(e) != jval(v),
{
    assert forall|e: ServiceEndpointEntry| sentry_jval(e) != jval(v) by {
        if sentry_jval(e) == jval(v) {
            lemma_sentry_shape(e, jval(v));
        }
    }
}

/// Reads a service endpoint entry back from its JSON object: it succeeds on
/// exactly the values some entry serializes to.
fn sentry_from_json(v: &JsonValue) -> (r: Option<ServiceEndpointEntry>)
    ensures
        match r {
            Option::Some(e) => sentry_jval(e) == jval(*v),
            Option::None => true,
        },
        (exists|e: ServiceEndpointEntry| sentry_jval(e) == jval(*v)) ==> r is Some,
{
    let fields = match v {
        JsonValue::Object(fields) => fields,
        _ => {
            proof {
                crate::json::lemma_jval_variant(*v);
                lemma_sentry_none(*v);
            }
            return Option::None;
        },
    };
    proof {
        lemma_jval_fields_len(fields@);
    }
    if fields.len() != 3 {
        proof {
            lemma_sentry_none(*v);
        }
        return Option::None;
    }
    proof {
        lemma_jval_fields_index(fields@, 0);
        lemma_jval_fields_index(fields@, 1);
        lemma_jval_fields_index(fields@, 2);
        if exists|e: ServiceEndpointEntry| sentry_jval(e) == jval(*v) {
            let e = choose|e: ServiceEndpointEntry| sentry_jval(e) == jval(*v);
            lemma_sentry_shape(e, jval(*v));
            crate::json::lemma_jval_variant(fields@[0].1);
            crate::json::lemma_jval_variant(fields@[2].1);
        }
    }
    if !crate::json::str_eq_chars(fields[0].0.as_str(), "id") {
        return Option::None;
    }
    let id = match &fields[0].1 {
        JsonValue::Text(s) => s.clone(),
        _ => {
            return Option::None;
        },
    };
    if !crate::json::str_eq_chars(fields[1].0.as_str(), "serviceEndpoint") {
        return Option::None;
    }
    let service_endpoint = match &fields[1].1 {
        JsonValue::Text(s) => ServiceEndpoint::Uri(s.clone()),
        other => ServiceEndpoint::Object(json_clone(other)),
    };
    if !crate::json::str_eq_chars(fields[2].0.as_str(), "type") {
        return Option::None;
    }
    let type_ = match &fields[2].1 {
        JsonValue::Text(s) => s.clone(),
        _ => {
            return Option::None;
        },
    };
    let e = ServiceEndpointEntry { id, type_, service_endpoint };
    proof {
        lemma_jval_fields_len(fields@);
        lemma_jval_fields_index(fields@, 0);
        lemma_jval_fields_index(fields@, 1);
        lemma_jval_fields_index(fields@, 2);
        assert(sentry_jval(e)->Object_0 =~= jval_fields(fields@));
        assert(sentry_jval(e) == jval(*v));
    }
    Option::Some(e)
}

/// Reads a list of public key entries back from a JSON array.
#[verifier::loop_isolation(false)]
fn pkentries_from_json(v: &JsonValue) -> (r: Option<Vec<PublicKeyEntry>>)
    ensures
        match r {
            Option::Some(es) => pkentries_jval(es@) == jval(*v),
            Option::None => true,
        },
        (exists|es: Vec<PublicKeyEntry>| pkentries_jval(es@) == jval(*v)) ==> r is Some,
{
    match v {
        JsonValue::Array(elems) => {
            let mut out: Vec<PublicKeyEntry> = Vec::new();
            let mut i: usize = 0;
            while i < elems.len()
                invariant
                    i <= elems.len(),
                    out@.len() == i,
                    forall|j: int| 0 <= j < i ==> pkentry_jval(#[trigger] out@[j]) == jval_seq(
                        elems@,
                    )[j],
                decreases elems.len() - i,
            {
                proof {
                    lemma_jval_seq_index(elems@, i as int);
                }
                match pkentry_from_json(&elems[i]) {
                    Option::Some(x) => {
                        out.push(x);
                    },
                    Option::None => {
                        proof {
                            if exists|es: Vec<PublicKeyEntry>| pkentries_jval(es@) == jval(*v) {
                                let es = choose|es: Vec<PublicKeyEntry>| pkentries_jval(es@)
                                    == jval(*v);
                                lemma_jval_seq_len(elems@);
                                assert(pkentries_jval(es@)->Array_0 == jval_seq(elems@));
                                assert(pkentries_jval(es@)->Array_0.len() == es@.len());
                                assert(es@.len() == elems@.len());
                                assert(pkentries_jval(es@)->Array_0[i as int] == pkentry_jval(
                                    es@[i as int],
                                ));
                                lemma_jval_seq_index(elems@, i as int);
                                assert(pkentries_jval(es@)->Array_0[i as int] == jval_seq(elems@)[i as int]);
                                assert(jval_seq(elems@)[i as int] == jval(elems@[i as int]));
                                assert(pkentry_jval(es@[i as int]) == jval(elems@[i as int]));
                                assert(false);
                            }
                        }
                        return Option::None;
                    },
                }
                i += 1;
            }
            proof {
                lemma_jval_seq_len(elems@);
                assert(pkentries_jval(out@)->Array_0 =~= jval_seq(elems@));
            }
            Option::Some(out)
        },
        _ => {
            proof {
                crate::json::lemma_jval_variant(*v);
                if exists|es: Vec<PublicKeyEntry>| pkentries_jval(es@) == jval(*v) {
                    let es = choose|es: Vec<PublicKeyEntry>| pkentries_jval(es@) == jval(*v);
                    assert(jval(*v) is Array);
                    assert(false);
                }
            }
            Option::None
        },
    }
}

/// Reads a list of service endpoint entries back from a JSON array.
#[verifier::loop_isolation(false)]
fn sentries_from_json(v: &JsonValue) -> (r: Option<Vec<ServiceEndpointEntry>>)
    ensures
        match r {
            Option::Some(es) => sentries_jval(es@) == jval(*v),
            Option::None => true,
        },
        (exists|es: Vec<ServiceEndpointEntry>| sentries_jval(es@) == jval(*v)) ==> r is Some,
{
    match v {
        JsonValue::Array(elems) => {
            let mut out: Vec<ServiceEndpointEntry> = Vec::new();
            let mut i: usize = 0;
            while i < elems.len()
                invariant
                    i <= elems.len(),
                    out@.len() == i,
                    forall|j: int| 0 <= j < i ==> sentry_jval(#[trigger] out@[j]) == jval_seq(
                        elems@,
                    )[j],
                decreases elems.len() - i,
            {
                proof {
                    lemma_jval_seq_index(elems@, i as int);
                }
                match sentry_from_json(&elems[i]) {
                    Option::Some(x) => {
                        out.push(x);
                    },
                    Option::None => {
                        proof {
                            if exists|es: Vec<ServiceEndpointEntry>| sentries_jval(es@) == jval(
                                *v,
                            ) {
                                let es = choose|es: Vec<ServiceEndpointEntry>|
                                    sentries_jval(es@) == jval(*v);
                                lemma_jval_seq_len(elems@);
                                assert(sentries_jval(es@)->Array_0 == jval_seq(elems@));
                                assert(sentries_jval(es@)->Array_0.len() == es@.len());
                                assert(es@.len() == elems@.len());
                                assert(sentries_jval(es@)->Array_0[i as int] == sentry_jval(
                                    es@[i as int],
                                ));
                                lemma_jval_seq_index(elems@, i as int);
                                assert(sentries_jval(es@)->Array_0[i as int] == jval_seq(elems@)[i as int]);
                                assert(jval_seq(elems@)[i as int] == jval(elems@[i as int]));
                                assert(sentry_jval(es@[i as int]) == jval(elems@[i as int]));
                                assert(false);
                            }
                        }
                        return Option::None;
                    },
                }
                i += 1;
            }
            proof {
                lemma_jval_seq_len(elems@);
                assert(sentries_jval(out@)->Array_0 =~= jval_seq(elems@));
            }
            Option::Some(out)
        },
        _ => {
            proof {
                crate::json::lemma_jval_variant(*v);
                if exists|es: Vec<ServiceEndpointEntry>| sentries_jval(es@) == jval(*v) {
                    let es = choose|es: Vec<ServiceEndpointEntry>| sentries_jval(es@) == jval(*v);
                    assert(jval(*v) is Array);
                    assert(false);
                }
            }
            Option::None
        },
    }
}

/// Reads a list of id strings back from a JSON array.
#[verifier::loop_isolation(false)]
fn ids_from_json(v: &JsonValue) -> (r: Option<Vec<String>>)
    ensures
        match r {
            Option::Some(ids) => ids_jval(ids@) == jval(*v),
            Option::None => true,
        },
        (exists|ids: Vec<String>| ids_jval(ids@) == jval(*v)) ==> r is Some,
{
    match v {
        JsonValue::Array(elems) => {
            let mut out: Vec<String> = Vec::new();
            let mut i: usize = 0;
            while i < elems.len()
                invariant
                    i <= elems.len(),
                    out@.len() == i,
                    forall|j: int| 0 <= j < i ==> JsonVal::Text((#[trigger] out@[j])@)
                        == jval_seq(elems@)[j],
                decreases elems.len() - i,
            {
                proof {
                    lemma_jval_seq_index(elems@, i as int);
                }
                match &elems[i] {
                    JsonValue::Text(s) => {
                        out.push(s.clone());
                    },
                    _ => {
                        proof {
                            crate::json::lemma_jval_variant(elems@[i as int]);
                            if exists|ids: Vec<String>| ids_jval(ids@) == jval(*v) {
                                let ids = choose|ids: Vec<String>| ids_jval(ids@) == jval(*v);
                                lemma_jval_seq_len(elems@);
                                assert(ids_jval(ids@)->Array_0 == jval_seq(elems@));
                                assert(ids_jval(ids@)->Array_0[i as int] == JsonVal::Text(
                                    ids@[i as int]@,
                                ));
                                assert(jval(elems@[i as int]) is Text);
                                assert(false);
                            }
                        }
                        return Option::None;
                    },
                }
                i += 1;
            }
            proof {
                lemma_jval_seq_len(elems@);
                assert(ids_jval(out@)->Array_0 =~= jval_seq(elems@));
            }
            Option::Some(out)
        },
        _ => {
            proof {
                crate::json::lemma_jval_variant(*v);
                if exists|ids: Vec<String>| ids_jval(ids@) == jval(*v) {
                    let ids = choose|ids: Vec<String>| ids_jval(ids@) == jval(*v);
                    assert(jval(*v) is Array);
                    assert(false);
                }
            }
            Option::None
        },
    }
}

/// What any witness of a document state's JSON form looks like.
proof fn lemma_document_shape(d: DocumentState, w: JsonVal)
    requires
        document_jval(d) == w,
    ensures
        w is Object,
        w->Object_0.len() <= 2,
        d.public_keys is Some && d.services is Some ==> w->Object_0.len() == 2 && w->Object_0[0].0
            == "publicKeys"@ && w->Object_0[0].1 == pkentries_jval(d.public_keys.unwrap()@)
            && w->Object_0[1].0 == "services"@ && w->Object_0[1].1 == sentries_jval(
            d.services.unwrap()@,
        ),
        d.public_keys is Some && d.services is None ==> w->Object_0.len() == 1 && w->Object_0[0].0
            == "publicKeys"@ && w->Object_0[0].1 == pkentries_jval(d.public_keys.unwrap()@),
        d.public_keys is None && d.services is Some ==> w->Object_0.len() == 1 && w->Object_0[0].0
            == "services"@ && w->Object_0[0].1 == sentries_jval(d.services.unwrap()@),
        d.public_keys is None && d.services is None ==> w->Object_0.len() == 0,
{
}

/// The two document member keys are distinct.
proof fn lemma_document_keys_distinct()
    ensures
        "publicKeys"@ != "services"@,
{
    reveal_strlit("publicKeys");
    reveal_strlit("services");
    assert("publicKeys"@.len() != "services"@.len());
}

/// Reads a document state back from its JSON object: it succeeds on exactly
/// the values some document state serializes to.
fn document_from_json(v: &JsonValue) -> (r: Option<DocumentState>)
    ensures
        match r {
            Option::Some(d) => document_jval(d) == jval(*v),
            Option::None => true,
        },
        (exists|d: DocumentState| document_jval(d) == jval(*v)) ==> r is Some,
{
    let fields = match v {
        JsonValue::Object(fields) => fields,
        _ => {
            proof {
                crate::json::lemma_jval_variant(*v);
                if exists|d: DocumentState| document_jval(d) == jval(*v) {
                    let d = choose|d: DocumentState| document_jval(d) == jval(*v);
                    lemma_document_shape(d, jval(*v));
                }
            }
            return Option::None;
        },
    };
    proof {
        lemma_jval_fields_len(fields@);
        if fields@.len() > 0 {
            lemma_jval_fields_index(fields@, 0);
        }
        if fields@.len() > 1 {
            lemma_jval_fields_index(fields@, 1);
        }
        lemma_document_keys_distinct();
    }
    if fields.len() > 2 {
        proof {
            if exists|d: DocumentState| document_jval(d) == jval(*v) {
                let d = choose|d: DocumentState| document_jval(d) == jval(*v);
                lemma_document_shape(d, jval(*v));
            }
        }
        return Option::None;
    }
    let mut public_keys: Option<Vec<PublicKeyEntry>> = Option::None;
    let mut services: Option<Vec<ServiceEndpointEntry>> = Option::None;
    let mut at: usize = 0;
    if at < fields.len() && crate::json::str_eq_chars(fields[at].0.as_str(), "publicKeys") {
        match pkentries_from_json(&fields[at].1) {
            Option::Some(es) => {
                public_keys = Option::Some(es);
            },
            Option::None => {
                proof {
                    if exists|d: DocumentState| document_jval(d) == jval(*v) {
                        let d = choose|d: DocumentState| document_jval(d) == jval(*v);
                        lemma_document_shape(d, jval(*v));
                        assert(d.public_keys is Some);
                        assert(false);
                    }
                }
                return Option::None;
            },
        }
        at += 1;
    }
    if at < fields.len() && crate::json::str_eq_chars(fields[at].0.as_str(), "services") {
        match sentries_from_json(&fields[at].1) {
            Option::Some(es) => {
                services = Option::Some(es);
            },
            Option::None => {
                proof {
                    if exists|d: DocumentState| document_jval(d) == jval(*v) {
                        let d = choose|d: DocumentState| document_jval(d) == jval(*v);
                        lemma_document_shape(d, jval(*v));
                        assert(d.services is Some);
                        assert(false);
                    }
                }
                return Option::None;
            },
        }
        at += 1;
    }
    if at < fields.len() {
        proof {
            if exists|d: DocumentState| document_jval(d) == jval(*v) {
                let d = choose|d: DocumentState| document_jval(d) == jval(*v);
                lemma_document_shape(d, jval(*v));
            }
        }
        return Option::None;
    }
    let d = DocumentState { public_keys, services };
    proof {
        lemma_jval_fields_len(fields@);
        if fields@.len() > 0 {
            lemma_jval_fields_index(fields@, 0);
        }
        if fields@.len() > 1 {
            lemma_jval_fields_index(fields@, 1);
        }
        assert(document_jval(d)->Object_0 =~= jval_fields(fields@));
        assert(document_jval(d) == jval(*v));
    }
    Option::Some(d)
}

/// What any witness of a patch's JSON form looks like.
proof fn lemma_patch_shape(p: DIDStatePatch, w: JsonVal)
    requires
        patch_jval(p) == w,
    ensures
        w is Object,
        w->Object_0.len() == 2,
        w->Object_0[0].0 == "action"@,
        w->Object_0[0].1 is Text,
        match p {
            DIDStatePatch::AddPublicKeys { public_keys } => w->Object_0[0].1 == JsonVal::Text(
                "add-public-keys"@,
            ) && w->Object_0[1].0 == "publicKeys"@ && w->Object_0[1].1 == pkentries_jval(
                public_keys@,
            ),
            DIDStatePatch::RemovePublicKeys { ids } => w->Object_0[0].1 == JsonVal::Text(
                "remove-public-keys"@,
            ) && w->Object_0[1].0 == "ids"@ && w->Object_0[1].1 == ids_jval(ids@),
            DIDStatePatch::AddServices { services } => w->Object_0[0].1 == JsonVal::Text(
                "add-services"@,
            ) && w->Object_0[1].0 == "services"@ && w->Object_0[1].1 == sentries_jval(services@),
            DIDStatePatch::RemoveServices { ids } => w->Object_0[0].1 == JsonVal::Text(
                "remove-services"@,
            ) && w->Object_0[1].0 == "ids"@ && w->Object_0[1].1 == ids_jval(ids@),
            DIDStatePatch::Replace { document } => w->Object_0[0].1 == JsonVal::Text("replace"@)
                && w->Object_0[1].0 == "document"@ && w->Object_0[1].1 == document_jval(document),
            DIDStatePatch::IetfJsonPatch { patches } => w->Object_0[0].1 == JsonVal::Text(
                "ietf-json-patch"@,
            ) && w->Object_0[1].0 == "patches"@ && w->Object_0[1].1 == jval(patches),
        },
{
}

/// The six patch action names are pairwise distinct.
proof fn lemma_patch_actions_distinct()
    ensures
        "add-public-keys"@ != "remove-public-keys"@,
        "add-public-keys"@ != "add-services"@,
        "add-public-keys"@ != "remove-services"@,
        "add-public-keys"@ != "replace"@,
        "add-public-keys"@ != "ietf-json-patch"@,
        "remove-public-keys"@ != "add-services"@,
        "remove-public-keys"@ != "remove-services"@,
        "remove-public-keys"@ != "replace"@,
        "remove-public-keys"@ != "ietf-json-patch"@,
        "add-services"@ != "remove-services"@,
        "add-services"@ != "replace"@,
        "add-services"@ != "ietf-json-patch"@,
        "remove-services"@ != "replace"@,
        "remove-services"@ != "ietf-json-patch"@,
        "replace"@ != "ietf-json-patch"@,
{
    reveal_strlit("add-public-keys");
    reveal_strlit("remove-public-keys");
    reveal_strlit("add-services");
    reveal_strlit("remove-services");
    reveal_strlit("replace");
    reveal_strlit("ietf-json-patch");
    assert(("add-public-keys"@)[0] != ("remove-public-keys"@)[0]);
    assert(("add-public-keys"@)[4] != ("add-services"@)[4]);
    assert(("add-public-keys"@)[0] != ("remove-services"@)[0]);
    assert(("add-public-keys"@)[0] != ("ietf-json-patch"@)[0]);
    assert(("remove-public-keys"@)[7] != ("remove-services"@)[7]);
    assert(("remove-public-keys"@)[2] != ("replace"@)[2]);
    assert(("remove-public-keys"@)[0] != ("ietf-json-patch"@)[0]);
    assert(("add-services"@)[0] != ("remove-services"@)[0]);
    assert(("add-services"@)[0] != ("replace"@)[0]);
    assert(("add-services"@)[0] != ("ietf-json-patch"@)[0]);
    assert(("remove-services"@)[2] != ("replace"@)[2]);
    assert(("remove-services"@)[0] != ("ietf-json-patch"@)[0]);
    assert(("replace"@)[0] != ("ietf-json-patch"@)[0]);
}

impl DIDStatePatch {
    /// Reads a patch back from its JSON object, recognizing each of the six
    /// patch actions: it succeeds on exactly the values some patch serializes
    /// to.
    pub fn from_json(v: &JsonValue) -> (r: Option<DIDStatePatch>)
        ensures
            match r {
                Option::Some(p) => patch_jval(p) == jval(*v),
                Option::None => true,
            },
            (exists|p: DIDStatePatch| patch_jval(p) == jval(*v)) ==> r is Some,
    {
        let fields = match v {
            JsonValue::Object(fields) => fields,
            _ => {
                proof {
                    crate::json::lemma_jval_variant(*v);
                    if exists|p: DIDStatePatch| patch_jval(p) == jval(*v) {
                        let p = choose|p: DIDStatePatch| patch_jval(p) == jval(*v);
                        lemma_patch_shape(p, jval(*v));
                    }
                }
                return Option::None;
            },
        };
        proof {
            lemma_jval_fields_len(fields@);
        }
        if fields.len() != 2 {
            proof {
                if exists|p: DIDStatePatch| patch_jval(p) == jval(*v) {
                    let p = choose|p: DIDStatePatch| patch_jval(p) == jval(*v);
                    lemma_patch_shape(p, jval(*v));
                }
            }
            return Option::None;
        }
        proof {
            lemma_jval_fields_index(fields@, 0);
            lemma_jval_fields_index(fields@, 1);
            lemma_patch_actions_distinct();
        }
        if !crate::json::str_eq_chars(fields[0].0.as_str(), "action") {
            proof {
                if exists|p: DIDStatePatch| patch_jval(p) == jval(*v) {
                    let p = choose|p: DIDStatePatch| patch_jval(p) == jval(*v);
                    lemma_patch_shape(p, jval(*v));
                }
            }
            return Option::None;
        }
        let action = match &fields[0].1 {
            JsonValue::Text(s) => s,
            _ => {
                proof {
                    crate::json::lemma_jval_variant(fields@[0].1);
                    if exists|p: DIDStatePatch| patch_jval(p) == jval(*v) {
                        let p = choose|p: DIDStatePatch| patch_jval(p) == jval(*v);
                        lemma_patch_shape(p, jval(*v));
                    }
                }
                return Option::None;
            },
        };
        proof {
            lemma_jval_fields_len(fields@);
            lemma_jval_fields_index(fields@, 0);
            lemma_jval_fields_index(fields@, 1);
        }
        let p: DIDStatePatch = if crate::json::str_eq_chars(action.as_str(), "add-public-keys") {
            if !crate::json::str_eq_chars(fields[1].0.as_str(), "publicKeys") {
                proof {
                    if exists|p: DIDStatePatch| patch_jval(p) == jval(*v) {
                        let p = choose|p: DIDStatePatch| patch_jval(p) == jval(*v);
                        lemma_patch_shape(p, jval(*v));
                    }
                }
                return Option::None;
            }
            match pkentries_from_json(&fields[1].1) {
                Option::Some(es) => DIDStatePatch::AddPublicKeys { public_keys: es },
                Option::None => {
                    proof {
                    if exists|p: DIDStatePatch| patch_jval(p) == jval(*v) {
                        let p = choose|p: DIDStatePatch| patch_jval(p) == jval(*v);
                        lemma_patch_shape(p, jval(*v));
                    }
                }
                return Option::None;
                },
            }
        } else if crate::json::str_eq_chars(action.as_str(), "remove-public-keys") {
            if !crate::json::str_eq_chars(fields[1].0.as_str(), "ids") {
                proof {
                    if exists|p: DIDStatePatch| patch_jval(p) == jval(*v) {
                        let p = choose|p: DIDStatePatch| patch_jval(p) == jval(*v);
                        lemma_patch_shape(p, jval(*v));
                    }
                }
                return Option::None;
            }
            match ids_from_json(&fields[1].1) {
                Option::Some(ids) => DIDStatePatch::RemovePublicKeys { ids },
                Option::None => {
                    proof {
                    if exists|p: DIDStatePatch| patch_jval(p) == jval(*v) {
                        let p = choose|p: DIDStatePatch| patch_jval(p) == jval(*v);
                        lemma_patch_shape(p, jval(*v));
                    }
                }
                return Option::None;
                },
            }
        } else if crate::json::str_eq_chars(action.as_str(), "add-services") {
            if !crate::json::str_eq_chars(fields[1].0.as_str(), "services") {
                proof {
                    if exists|p: DIDStatePatch| patch_jval(p) == jval(*v) {
                        let p = choose|p: DIDStatePatch| patch_jval(p) == jval(*v);
                        lemma_patch_shape(p, jval(*v));
                    }
                }
                return Option::None;
            }
            match sentries_from_json(&fields[1].1) {
                Option::Some(es) => DIDStatePatch::AddServices { services: es },
                Option::None => {
                    proof {
                    if exists|p: DIDStatePatch| patch_jval(p) == jval(*v) {
                        let p = choose|p: DIDStatePatch| patch_jval(p) == jval(*v);
                        lemma_patch_shape(p, jval(*v));
                    }
                }
                return Option::None;
                },
            }
        } else if crate::json::str_eq_chars(action.as_str(), "remove-services") {
            if !crate::json::str_eq_chars(fields[1].0.as_str(), "ids") {
                proof {
                    if exists|p: DIDStatePatch| patch_jval(p) == jval(*v) {
                        let p = choose|p: DIDStatePatch| patch_jval(p) == jval(*v);
                        lemma_patch_shape(p, jval(*v));
                    }
                }
                return Option::None;
            }
            match ids_from_json(&fields[1].1) {
                Option::Some(ids) => DIDStatePatch::RemoveServices { ids },
                Option::None => {
                    proof {
                    if exists|p: DIDStatePatch| patch_jval(p) == jval(*v) {
                        let p = choose|p: DIDStatePatch| patch_jval(p) == jval(*v);
                        lemma_patch_shape(p, jval(*v));
                    }
                }
                return Option::None;
                },
            }
        } else if crate::json::str_eq_chars(action.as_str(), "replace") {
            if !crate::json::str_eq_chars(fields[1].0.as_str(), "document") {
                proof {
                    if exists|p: DIDStatePatch| patch_jval(p) == jval(*v) {
                        let p = choose|p: DIDStatePatch| patch_jval(p) == jval(*v);
                        lemma_patch_shape(p, jval(*v));
                    }
                }
                return Option::None;
            }
            match document_from_json(&fields[1].1) {
                Option::Some(d) => DIDStatePatch::Replace { document: d },
                Option::None => {
                    proof {
                    if exists|p: DIDStatePatch| patch_jval(p) == jval(*v) {
                        let p = choose|p: DIDStatePatch| patch_jval(p) == jval(*v);
                        lemma_patch_shape(p, jval(*v));
                    }
                }
                return Option::None;
                },
            }
        } else if crate::json::str_eq_chars(action.as_str(), "ietf-json-patch") {
            if !crate::json::str_eq_chars(fields[1].0.as_str(), "patches") {
                proof {
                    if exists|p: DIDStatePatch| patch_jval(p) == jval(*v) {
                        let p = choose|p: DIDStatePatch| patch_jval(p) == jval(*v);
                        lemma_patch_shape(p, jval(*v));
                    }
                }
                return Option::None;
            }
            DIDStatePatch::IetfJsonPatch { patches: json_clone(&fields[1].1) }
        } else {
            proof {
                    if exists|p: DIDStatePatch| patch_jval(p) == jval(*v) {
                        let p = choose|p: DIDStatePatch| patch_jval(p) == jval(*v);
                        lemma_patch_shape(p, jval(*v));
                    }
                }
                return Option::None;
        };
        proof {
            assert(patch_jval(p)->Object_0 =~= jval_fields(fields@));
            assert(patch_jval(p) == jval(*v));
        }
        Option::Some(p)
    }
}

} // verus!

verus! {

impl PublicKeyEntry {
    /// Builds a verification-method entry from a key: the entry carries the
    /// key's public projection as its JWK, under the standard verification
    /// method type, related to the DID by every verification relationship.
    /// The entry's `id` is deliberately left empty — no identifier scheme is
    /// defined for these entries yet, and the caller assigns one.
    pub fn from_jwk(jwk: &JWK) -> (r: PublicKeyEntry)
        requires
            jwk_within_limits(*jwk),
        ensures
            pkentry_wf(r),
            r.id@.len() == 0,
            r.type_@ == "JsonWebSignature2020"@,
            r.controller is None,
            (r.public_key matches PublicKey::PublicKeyJwk(p) && p.jwk_val()
                == crate::jwk::spec_public_jwk_json(*jwk)),
            r.purposes@ == seq![
                VerificationRelationship::Authentication,
                VerificationRelationship::AssertionMethod,
                VerificationRelationship::KeyAgreement,
                VerificationRelationship::CapabilityInvocation,
                VerificationRelationship::CapabilityDelegation,
            ],
    {
        let public = jwk.to_public();
        proof {
            assert(jwk_within_limits(public));
            assert(!spec_jwk_has_private(public));
        }
        let pk = match PublicKeyJwk::try_from_jwk(&public) {
            Result::Ok(p) => p,
            Result::Err(_) => {
                proof {
                    assert(false);
                }
                PublicKeyJwk::from_json(JsonValue::Null)
            },
        };
        proof {
            assert(spec_jwk_json(public) =~= crate::jwk::spec_public_jwk_json(*jwk));
        }
        let mut purposes: Vec<VerificationRelationship> = Vec::new();
        purposes.push(VerificationRelationship::Authentication);
        purposes.push(VerificationRelationship::AssertionMethod);
        purposes.push(VerificationRelationship::KeyAgreement);
        purposes.push(VerificationRelationship::CapabilityInvocation);
        purposes.push(VerificationRelationship::CapabilityDelegation);
        let r = PublicKeyEntry {
            id: String::new(),
            type_: "JsonWebSignature2020".to_owned(),
            controller: Option::None,
            public_key: PublicKey::PublicKeyJwk(pk),
            purposes,
        };
        proof {
            assert(r.purposes@ =~= seq![
                VerificationRelationship::Authentication,
                VerificationRelationship::AssertionMethod,
                VerificationRelationship::KeyAgreement,
                VerificationRelationship::CapabilityInvocation,
                VerificationRelationship::CapabilityDelegation,
            ]);
        }
        r
    }
}

} // verus!
