use didkit::json::JsonValue;
use didkit::jwk::{jwk_to_json, Base64urlUInt, ECParams, Params, JWK};
use didkit::sidetree::json_canonicalization_scheme;

fn keypair() -> JWK {
    JWK {
        params: Params::EC(ECParams {
            curve: "secp256k1".to_string(),
            x_coordinate: Base64urlUInt(vec![1; 32]),
            y_coordinate: Base64urlUInt(vec![2; 32]),
            ecc_private_key: Some(Base64urlUInt(vec![3; 32])),
        }),
    }
}

#[test]
fn generate_secp256k1_yields_a_full_keypair() {
    let jwk = JWK::generate_secp256k1().unwrap();
    let Params::EC(p) = jwk.params;
    assert_eq!(p.curve, "secp256k1");
    assert_eq!(p.x_coordinate.0.len(), 32);
    assert_eq!(p.y_coordinate.0.len(), 32);
    let d = p.ecc_private_key.as_ref().expect("private scalar present");
    assert_eq!(d.0.len(), 32);
}

#[test]
fn generated_keys_differ_between_calls() {
    let a = JWK::generate_secp256k1().unwrap();
    let b = JWK::generate_secp256k1().unwrap();
    let Params::EC(pa) = a.params;
    let Params::EC(pb) = b.params;
    assert_ne!(pa.x_coordinate.0, pb.x_coordinate.0);
}

#[test]
fn public_projection_drops_the_private_scalar() {
    let jwk = keypair();
    let public = jwk.to_public();
    let Params::EC(p) = public.params;
    assert_eq!(p.curve, "secp256k1");
    assert_eq!(p.x_coordinate.0, vec![1; 32]);
    assert_eq!(p.y_coordinate.0, vec![2; 32]);
    assert!(p.ecc_private_key.is_none());
}

#[test]
fn zeroization_erases_the_private_scalar() {
    let jwk = keypair();
    let Params::EC(mut p) = jwk.params;
    p.zeroize_private_scalar();
    let d = p.ecc_private_key.as_ref().expect("buffer still owned");
    assert_eq!(d.0.len(), 32);
    assert!(d.0.iter().all(|b| *b == 0), "no readable copy of the scalar remains");
    assert_eq!(p.x_coordinate.0, vec![1; 32]);
}

#[test]
fn zeroization_tolerates_absent_scalars() {
    let jwk = keypair().to_public();
    let Params::EC(mut p) = jwk.params;
    p.zeroize_private_scalar();
    assert!(p.ecc_private_key.is_none());
}

#[test]
fn jwk_serializes_with_sorted_keys_and_base64url() {
    let jwk = keypair();
    let text = json_canonicalization_scheme(&jwk_to_json(&jwk)).unwrap();
    let x = base64::encode_config(vec![1u8; 32], base64::URL_SAFE_NO_PAD);
    let y = base64::encode_config(vec![2u8; 32], base64::URL_SAFE_NO_PAD);
    let d = base64::encode_config(vec![3u8; 32], base64::URL_SAFE_NO_PAD);
    let expected = format!(
        "{{\"crv\":\"secp256k1\",\"d\":\"{}\",\"kty\":\"EC\",\"x\":\"{}\",\"y\":\"{}\"}}",
        d, x, y
    );
    assert_eq!(text, expected);
    let _ = JsonValue::Null;
}

#[test]
fn generated_jwk_round_trips_through_serde() {
    let jwk = JWK::generate_secp256k1().unwrap();
    let text = json_canonicalization_scheme(&jwk_to_json(&jwk)).unwrap();
    let value: serde_json::Value = serde_json::from_str(&text).unwrap();
    assert_eq!(value["kty"], serde_json::Value::String("EC".to_string()));
    assert_eq!(value["crv"], serde_json::Value::String("secp256k1".to_string()));
    assert!(value["x"].is_string());
    assert!(value["y"].is_string());
    assert!(value["d"].is_string());
}

#[test]
fn base64url_uint_renders_without_padding() {
    let v = Base64urlUInt(vec![251, 239]);
    assert_eq!(v.to_base64url_string(), base64::encode_config(vec![251u8, 239u8], base64::URL_SAFE_NO_PAD));
    let empty = Base64urlUInt(vec![]);
    assert_eq!(empty.to_base64url_string(), "");
}
