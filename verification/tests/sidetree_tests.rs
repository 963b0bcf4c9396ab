use didkit::json::{json_eq, to_canonical_bytes, JsonValue};
use didkit::jwk::{Base64urlUInt, ECParams, Params, JWK};
use didkit::operation::Operation;
use didkit::patches::PublicKeyJwk;
use didkit::sidetree::{
    commitment_scheme, create_existing, data_encoding_scheme, hash, hash_algorithm,
    hash_protocol, json_canonicalization_scheme, SidetreeError,
};

fn public_jwk(xb: u8, yb: u8) -> JWK {
    JWK {
        params: Params::EC(ECParams {
            curve: "secp256k1".to_string(),
            x_coordinate: Base64urlUInt(vec![xb; 32]),
            y_coordinate: Base64urlUInt(vec![yb; 32]),
            ecc_private_key: None,
        }),
    }
}

fn public_key_jwk(xb: u8, yb: u8) -> PublicKeyJwk {
    PublicKeyJwk::try_from_jwk(&public_jwk(xb, yb)).unwrap()
}

fn manual_hash(data: &[u8]) -> String {
    let digest = <sha2::Sha256 as sha2::Digest>::digest(data);
    let mut prefixed = vec![0x12u8, 0x20u8];
    prefixed.extend_from_slice(&digest);
    base64::encode_config(prefixed, base64::URL_SAFE_NO_PAD)
}

#[test]
fn hash_matches_manual_multihash_pipeline() {
    let data = b"hello sidetree".to_vec();
    assert_eq!(hash(&data), manual_hash(&data));
}

#[test]
fn hash_protocol_prefixes_the_raw_digest() {
    let data = b"abc".to_vec();
    let raw = hash_algorithm(&data);
    let prefixed = hash_protocol(&data);
    assert_eq!(raw.len(), 32);
    assert_eq!(prefixed.len(), 34);
    assert_eq!(&prefixed[0..2], &[0x12u8, 0x20u8]);
    assert_eq!(&prefixed[2..], raw.as_slice());
    let digest = <sha2::Sha256 as sha2::Digest>::digest(b"abc".as_slice());
    assert_eq!(raw.as_slice(), digest.as_slice());
}

#[test]
fn data_encoding_is_base64url_without_padding() {
    assert_eq!(data_encoding_scheme(&vec![]), "");
    assert_eq!(data_encoding_scheme(&vec![0]), "AA");
    assert_eq!(data_encoding_scheme(&b"abc".to_vec()), "YWJj");
    assert_eq!(data_encoding_scheme(&b"ab".to_vec()), "YWI");
}

#[test]
fn canonicalization_matches_jcs() {
    let pk = public_key_jwk(1, 2);
    let ours = json_canonicalization_scheme(&pk.to_json()).unwrap();
    let x = base64::encode_config(vec![1u8; 32], base64::URL_SAFE_NO_PAD);
    let y = base64::encode_config(vec![2u8; 32], base64::URL_SAFE_NO_PAD);
    let text = format!(
        "{{\"kty\":\"EC\",\"crv\":\"secp256k1\",\"x\":\"{}\",\"y\":\"{}\"}}",
        x, y
    );
    let value: serde_json::Value = serde_json::from_str(&text).unwrap();
    let theirs = serde_jcs::to_string(&value).unwrap();
    assert_eq!(ours, theirs);
}

#[test]
fn commitment_matches_manual_two_stage_hash() {
    let pk = public_key_jwk(1, 2);
    let canonical = json_canonicalization_scheme(&pk.to_json()).unwrap();
    let reveal_value = <sha2::Sha256 as sha2::Digest>::digest(canonical.as_bytes());
    let expected = manual_hash(&reveal_value);
    assert_eq!(commitment_scheme(&pk), expected);
}

#[test]
fn commitments_differ_for_different_keys() {
    let a = public_key_jwk(1, 2);
    let b = public_key_jwk(3, 2);
    let c = public_key_jwk(1, 3);
    assert_ne!(commitment_scheme(&a), commitment_scheme(&b));
    assert_ne!(commitment_scheme(&a), commitment_scheme(&c));
    assert_ne!(commitment_scheme(&b), commitment_scheme(&c));
}

#[test]
fn create_existing_rejects_equal_keys() {
    let u = public_key_jwk(1, 2);
    let r = public_key_jwk(1, 2);
    let result = create_existing(&u, &r, Vec::new());
    assert!(matches!(result, Err(SidetreeError::KeysMustDiffer)));
}

#[test]
fn create_existing_scenario_empty_patches() {
    let u = public_key_jwk(1, 2);
    let r = public_key_jwk(3, 4);
    let op = create_existing(&u, &r, Vec::new()).unwrap();
    let Operation::Create(co) = op;
    assert_eq!(co.delta.patches.len(), 0);
    assert_eq!(co.delta.update_commitment, commitment_scheme(&u));
    assert_eq!(co.suffix_data.recovery_commitment, commitment_scheme(&r));
    assert!(co.suffix_data.type_.is_none());
    assert!(co.suffix_data.anchor_origin.is_none());
    let delta_canonical = json_canonicalization_scheme(&co.delta.to_json()).unwrap();
    assert_eq!(co.suffix_data.delta_hash, manual_hash(delta_canonical.as_bytes()));
}

#[test]
fn create_existing_is_deterministic() {
    let u = public_key_jwk(1, 2);
    let r = public_key_jwk(3, 4);
    let op1 = create_existing(&u, &r, Vec::new()).unwrap();
    let op2 = create_existing(&u, &r, Vec::new()).unwrap();
    let b1 = to_canonical_bytes(&op1.to_json());
    let b2 = to_canonical_bytes(&op2.to_json());
    assert_eq!(b1, b2);
    assert!(json_eq(&op1.to_json(), &op2.to_json()));
}

#[test]
fn operation_json_is_create_tagged() {
    let u = public_key_jwk(1, 2);
    let r = public_key_jwk(3, 4);
    let op = create_existing(&u, &r, Vec::new()).unwrap();
    let text = json_canonicalization_scheme(&op.to_json()).unwrap();
    assert!(text.starts_with("{\"delta\":{\"patches\":[],\"updateCommitment\":\""));
    assert!(text.contains("\"suffixData\":{\"deltaHash\":\""));
    assert!(text.ends_with("\"type\":\"create\"}"));
    let value: serde_json::Value = serde_json::from_str(&text).unwrap();
    assert_eq!(value["type"], serde_json::Value::String("create".to_string()));
}

#[test]
fn equal_payload_check_is_structural() {
    let a = public_key_jwk(1, 2);
    let b = public_key_jwk(1, 2);
    assert!(a.equals(&b));
    let c = public_key_jwk(9, 2);
    assert!(!a.equals(&c));
    assert!(json_eq(&a.to_json(), &b.to_json()));
}

#[test]
fn ion_method_name_constant() {
    assert_eq!(didkit::sidetree::ION::METHOD, "ion");
    let _marker = didkit::sidetree::ION;
    let _ = JsonValue::Null;
}
