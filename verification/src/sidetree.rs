//! The Sidetree client parameters: the hashing process (a 256-bit digest
//! behind a two-byte multihash-style prefix, base64url-encoded without
//! padding), the public key commitment scheme (hash of the hash of the
//! canonicalized public key JWK), and the construction of a Create operation
//! from existing keys.

use vstd::prelude::*;
use vstd::utf8::{encode_utf8, valid_utf8};

use crate::encoding::{b64url_nopad, base64url_encode, sha256, sha256_of, string_from_utf8};
use crate::json::{cjson, jval, wf_jval, JsonVal, JsonValue};
use crate::operation::{
    delta_jval, op_jval, suffix_jval, CreateOperation, Delta, Operation, SuffixData,
};
use crate::patches::{patch_wf, DIDStatePatch, PublicKeyJwk};

verus! {

/// The Sidetree method parameters for the did:ion method.
pub struct ION;

impl ION {
    /// The DID method name this Sidetree instance serves.
    pub const METHOD: &'static str = "ion";
}

/// Errors from Sidetree operation construction.
#[derive(Debug)]
pub enum SidetreeError {
    /// The update and recovery public key JWK payloads are equal; the
    /// commitment scheme requires them to differ.
    KeysMustDiffer,
    /// The canonical JSON bytes could not be carried as a string.
    Jcs,
}

/// The two-byte multihash-style prefix of the hashing process: the algorithm
/// code for a 256-bit digest, then the digest length in bytes.
pub open spec fn multihash_prefix() -> Seq<u8> {
    seq![18u8, 32u8]
}

/// The hash protocol: prefix and digest, concatenated.
pub open spec fn spec_hash_protocol(data: Seq<u8>) -> Seq<u8> {
    multihash_prefix() + sha256_of(data)
}

/// The hashing process: prefixed digest, base64url-encoded without padding.
pub open spec fn spec_hash(data: Seq<u8>) -> Seq<char> {
    b64url_nopad(spec_hash_protocol(data))
}

/// The public key commitment scheme: the hashing process applied to the raw
/// digest (the reveal value) of the canonicalized public key JWK.
pub open spec fn spec_commitment(j: JsonVal) -> Seq<char> {
    spec_hash(sha256_of(cjson(j)))
}

/// The combination of hash protocol and hash algorithm: the multihash-style
/// prefix, and the raw digest. Both derive from one computation, so they can
/// never disagree about the algorithm.
pub fn hash_protocol_algorithm(data: &[u8]) -> (r: (Vec<u8>, Vec<u8>))
    ensures
        r.0@ == multihash_prefix(),
        r.1@ == sha256_of(data@),
        r.1@.len() == 32,
{
    let mut prefix: Vec<u8> = Vec::new();
    prefix.push(18);
    prefix.push(32);
    let digest = sha256(data);
    proof {
        assert(prefix@ =~= multihash_prefix());
    }
    (prefix, digest)
}

/// The hash protocol: the prefixed digest bytes.
pub fn hash_protocol(data: &[u8]) -> (r: Vec<u8>)
    ensures
        r@ == spec_hash_protocol(data@),
        r@.len() == 34,
{
    let (mut prefix, mut digest) = hash_protocol_algorithm(data);
    prefix.append(&mut digest);
    prefix
}

/// The hash algorithm: the raw digest bytes, without the prefix.
pub fn hash_algorithm(data: &[u8]) -> (r: Vec<u8>)
    ensures
        r@ == sha256_of(data@),
        r@.len() == 32,
{
    let (_prefix, digest) = hash_protocol_algorithm(data);
    digest
}

/// The data encoding scheme: base64url without padding.
pub fn data_encoding_scheme(data: &Vec<u8>) -> (r: String)
    requires
        data@.len() * 4 <= usize::MAX,
    ensures
        r@ == b64url_nopad(data@),
{
    base64url_encode(data)
}

/// Hashes and encodes data: the hashing process as a string.
pub fn hash(data: &[u8]) -> (r: String)
    ensures
        r@ == spec_hash(data@),
{
    let protocol = hash_protocol(data);
    data_encoding_scheme(&protocol)
}

/// The JSON canonicalization scheme: the canonical bytes of a well-formed
/// value, carried as a string.
pub fn json_canonicalization_scheme(v: &JsonValue) -> (r: Result<String, SidetreeError>)
    requires
        wf_jval(jval(*v)),
    ensures
        match r {
            Result::Ok(s) => encode_utf8(s@) == cjson(jval(*v)),
            Result::Err(e) => e is Jcs && !valid_utf8(cjson(jval(*v))),
        },
{
    let bytes = crate::json::to_canonical_bytes(v);
    match string_from_utf8(bytes) {
        Option::Some(s) => Result::Ok(s),
        Option::None => Result::Err(SidetreeError::Jcs),
    }
}

/// The public key commitment scheme: canonicalize the public key JWK, take
/// the raw digest as the reveal value, and hash the reveal value.
pub fn commitment_scheme(pkjwk: &PublicKeyJwk) -> (r: String)
    requires
        pkjwk.wf(),
    ensures
        r@ == spec_commitment(pkjwk.jwk_val()),
{
    let canonicalized_public_key = crate::json::to_canonical_bytes(&pkjwk.to_json());
    let reveal_value = hash_algorithm(canonicalized_public_key.as_slice());
    hash(reveal_value.as_slice())
}

/// What the construction of a Create operation from existing keys promises of
/// its result, for update key payload `u`, recovery key payload `rv`, and
/// patches `ps`.
pub open spec fn spec_created(op: Operation, u: JsonVal, rv: JsonVal, ps: Seq<DIDStatePatch>) -> bool {
    match op {
        Operation::Create(co) => co.delta.patches@ == ps && co.delta.update_commitment@
            == spec_commitment(u) && co.suffix_data.delta_hash@ == spec_hash(
            cjson(delta_jval(co.delta)),
        ) && co.suffix_data.recovery_commitment@ == spec_commitment(rv)
            && co.suffix_data.type_ is None && co.suffix_data.anchor_origin is None,
    }
}

/// Creates a Sidetree-based DID Create operation from existing update and
/// recovery public keys and a list of DID state patches. The two key payloads
/// must differ structurally; equal payloads are a caller error.
pub fn create_existing(
    update_pk: &PublicKeyJwk,
    recovery_pk: &PublicKeyJwk,
    patches: Vec<DIDStatePatch>,
) -> (r: Result<Operation, SidetreeError>)
    requires
        update_pk.wf(),
        recovery_pk.wf(),
        forall|i: int| 0 <= i < patches@.len() ==> patch_wf(#[trigger] patches@[i]),
    ensures
        r is Err <==> update_pk.jwk_val() == recovery_pk.jwk_val(),
        match r {
            Result::Ok(op) => spec_created(
                op,
                update_pk.jwk_val(),
                recovery_pk.jwk_val(),
                patches@,
            ),
            Result::Err(e) => e is KeysMustDiffer,
        },
{
    if update_pk.equals(recovery_pk) {
        return Result::Err(SidetreeError::KeysMustDiffer);
    }
    let update_commitment = commitment_scheme(update_pk);
    let delta = Delta { patches, update_commitment };
    let delta_bytes = crate::json::to_canonical_bytes(&delta.to_json());
    let delta_hash = hash(delta_bytes.as_slice());
    let recovery_commitment = commitment_scheme(recovery_pk);
    let suffix_data = SuffixData {
        type_: Option::None,
        delta_hash,
        recovery_commitment,
        anchor_origin: Option::None,
    };
    Result::Ok(Operation::Create(CreateOperation { delta, suffix_data }))
}

/// Determinism: for one fixed triple of update key payload, recovery key
/// payload and patches, any two operations meeting the construction contract
/// have byte-identical canonical JSON output.
pub proof fn lemma_create_existing_deterministic(
    u: JsonVal,
    rv: JsonVal,
    ps: Seq<DIDStatePatch>,
    op1: Operation,
    op2: Operation,
)
    requires
        spec_created(op1, u, rv, ps),
        spec_created(op2, u, rv, ps),
    ensures
        cjson(op_jval(op1)) == cjson(op_jval(op2)),
{
    match (op1, op2) {
        (Operation::Create(c1), Operation::Create(c2)) => {
            assert(delta_jval(c1.delta) =~= delta_jval(c2.delta));
            assert(suffix_jval(c1.suffix_data) =~= suffix_jval(c2.suffix_data));
            assert(op_jval(op1) =~= op_jval(op2));
        },
    }
}

} // verus!
