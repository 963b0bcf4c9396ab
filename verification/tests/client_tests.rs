use didkit::client::{HTTPSidetreeDIDResolver, SidetreeClient};
use didkit::dids::{DIDCreate, DIDMethodError};
use didkit::json::JsonValue;
use didkit::jwk::{Base64urlUInt, ECParams, Params, JWK};
use didkit::methods::{create_transaction, default_did_methods, AnyDIDMethod, DIDMethods};
use didkit::patches::PublicKeyJwkFromJWKError;
use didkit::resolve::HTTPDIDResolver;
use didkit::sidetree::SidetreeError;
use didkit::web::DIDWEB;

fn jwk(xb: u8, with_private: bool) -> JWK {
    JWK {
        params: Params::EC(ECParams {
            curve: "secp256k1".to_string(),
            x_coordinate: Base64urlUInt(vec![xb; 32]),
            y_coordinate: Base64urlUInt(vec![7; 32]),
            ecc_private_key: if with_private {
                Some(Base64urlUInt(vec![9; 32]))
            } else {
                None
            },
        }),
    }
}

fn request(update: Option<JWK>, recovery: Option<JWK>) -> DIDCreate {
    DIDCreate {
        update_key: update,
        recovery_key: recovery,
        verification_key: None,
        options: Vec::new(),
    }
}

#[test]
fn create_rejects_any_option() {
    let client = SidetreeClient::new(None);
    let mut req = request(Some(jwk(1, false)), Some(jwk(2, false)));
    req.options = vec![
        ("anchor".to_string(), JsonValue::Bool(true)),
        ("other".to_string(), JsonValue::Null),
    ];
    match client.create(req) {
        Err(DIDMethodError::OptionNotSupported { operation, option }) => {
            assert_eq!(operation, "create");
            assert_eq!(option, "anchor");
        },
        _ => panic!("expected the first option to be rejected"),
    }
}

#[test]
fn create_requires_update_key() {
    let client = SidetreeClient::new(None);
    match client.create(request(None, Some(jwk(2, false)))) {
        Err(DIDMethodError::MissingRequiredKey(which)) => assert_eq!(which, "update"),
        _ => panic!("expected a missing update key error"),
    }
}

#[test]
fn create_requires_recovery_key() {
    let client = SidetreeClient::new(None);
    match client.create(request(Some(jwk(1, false)), None)) {
        Err(DIDMethodError::MissingRequiredKey(which)) => assert_eq!(which, "recovery"),
        _ => panic!("expected a missing recovery key error"),
    }
}

#[test]
fn create_rejects_private_key_material() {
    let client = SidetreeClient::new(None);
    match client.create(request(Some(jwk(1, true)), Some(jwk(2, false)))) {
        Err(DIDMethodError::KeyConversionFailed { which, error }) => {
            assert_eq!(which, "update");
            assert!(matches!(error, PublicKeyJwkFromJWKError::PrivateKeyParameters));
        },
        _ => panic!("expected key conversion to fail"),
    }
}

#[test]
fn create_rejects_equal_keys() {
    let client = SidetreeClient::new(None);
    match client.create(request(Some(jwk(1, false)), Some(jwk(1, false)))) {
        Err(DIDMethodError::SidetreeOperation(e)) => {
            assert!(matches!(e, SidetreeError::KeysMustDiffer));
        },
        _ => panic!("expected the equal-keys error"),
    }
}

#[test]
fn create_builds_the_transaction_envelope() {
    let client = SidetreeClient::new(None);
    let tx = client.create(request(Some(jwk(1, false)), Some(jwk(2, false)))).unwrap();
    assert_eq!(tx.did_method, "ion");
    match &tx.value {
        JsonValue::Object(fields) => {
            assert_eq!(fields.len(), 1);
            assert_eq!(fields[0].0, "sidetreeOperation");
            assert!(matches!(fields[0].1, JsonValue::Object(_)));
        },
        _ => panic!("expected an object envelope"),
    }
}

#[test]
fn unknown_method_is_reported() {
    let mut methods = DIDMethods::default();
    methods.insert(AnyDIDMethod::Web(DIDWEB));
    let req = request(Some(jwk(1, false)), Some(jwk(2, false)));
    match create_transaction(&methods, "ion", req) {
        Err(DIDMethodError::UnknownMethod(name)) => assert_eq!(name, "ion"),
        _ => panic!("expected an unknown-method error"),
    }
}

#[test]
fn registry_dispatches_by_name() {
    let methods = default_did_methods(None);
    assert!(methods.get("web").is_some());
    assert!(methods.get("ion").is_some());
    assert!(methods.get("example").is_none());
    let req = request(Some(jwk(1, false)), Some(jwk(2, false)));
    let tx = create_transaction(&methods, "ion", req).unwrap();
    assert_eq!(tx.did_method, "ion");
}

#[test]
fn registry_insert_replaces_and_returns_previous() {
    let mut methods = DIDMethods::default();
    assert!(methods.insert(AnyDIDMethod::Ion(SidetreeClient::new(None))).is_none());
    let previous = methods.insert(AnyDIDMethod::Ion(SidetreeClient::new(Some(
        "https://node.example/".to_string(),
    ))));
    assert!(matches!(previous, Some(AnyDIDMethod::Ion(_))));
    match methods.get("ion") {
        Some(AnyDIDMethod::Ion(client)) => {
            assert_eq!(client.endpoint.as_deref(), Some("https://node.example/"));
        },
        _ => panic!("expected the replacing client"),
    }
}

#[test]
fn web_create_returns_an_empty_payload() {
    let req = request(None, None);
    let tx = DIDWEB.create(req).unwrap();
    assert_eq!(tx.did_method, "web");
    assert!(matches!(tx.value, JsonValue::Null));
}

#[test]
fn update_recover_deactivate_are_not_implemented() {
    let m = AnyDIDMethod::Web(DIDWEB);
    assert!(matches!(m.update(), Err(DIDMethodError::NotImplemented(_))));
    assert!(matches!(m.recover(), Err(DIDMethodError::NotImplemented(_))));
    assert!(matches!(m.deactivate(), Err(DIDMethodError::NotImplemented(_))));
}

#[test]
fn resolver_appends_identifiers_suffix() {
    let r = HTTPSidetreeDIDResolver::new("https://node.example/");
    assert_eq!(r.http_did_resolver.endpoint, "https://node.example/identifiers/");
    let plain = HTTPDIDResolver::new("https://resolver.example/");
    assert_eq!(plain.endpoint, "https://resolver.example/");
    let client = SidetreeClient::new(Some("https://node.example/".to_string()));
    assert!(client.resolver.is_some());
    assert_eq!(client.endpoint.as_deref(), Some("https://node.example/"));
}

#[test]
fn method_names_are_stable() {
    assert_eq!(AnyDIDMethod::Web(DIDWEB).name(), "web");
    assert_eq!(AnyDIDMethod::Ion(SidetreeClient::new(None)).name(), "ion");
}
