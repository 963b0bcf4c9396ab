use didkit::json::{json_eq, to_canonical_bytes, JsonValue};
use didkit::jwk::{Base64urlUInt, ECParams, Params, JWK};
use didkit::operation::{CreateOperation, Delta, Operation, SuffixData};
use didkit::parse::parse_json;
use didkit::patches::{
    DIDStatePatch, DocumentState, PublicKey, PublicKeyEntry, PublicKeyJwk, ServiceEndpoint,
    ServiceEndpointEntry, VerificationRelationship,
};

fn sample_entry() -> PublicKeyEntry {
    let jwk = JWK {
        params: Params::EC(ECParams {
            curve: "secp256k1".to_string(),
            x_coordinate: Base64urlUInt(vec![5; 32]),
            y_coordinate: Base64urlUInt(vec![6; 32]),
            ecc_private_key: None,
        }),
    };
    let mut entry = PublicKeyEntry::from_jwk(&jwk);
    entry.id = "key-1".to_string();
    entry
}

fn sample_service() -> ServiceEndpointEntry {
    ServiceEndpointEntry {
        id: "svc-1".to_string(),
        type_: "LinkedDomains".to_string(),
        service_endpoint: ServiceEndpoint::Uri("https://example.com/".to_string()),
    }
}

fn operation_with(patch: DIDStatePatch) -> Operation {
    Operation::Create(CreateOperation {
        delta: Delta {
            patches: vec![patch],
            update_commitment: "u-commitment".to_string(),
        },
        suffix_data: SuffixData {
            type_: None,
            delta_hash: "d-hash".to_string(),
            recovery_commitment: "r-commitment".to_string(),
            anchor_origin: None,
        },
    })
}

fn assert_operation_round_trips(op: Operation) {
    let as_json = op.to_json();
    let bytes = to_canonical_bytes(&as_json);
    let reparsed_value = parse_json(&bytes).expect("canonical text parses");
    assert!(json_eq(&reparsed_value, &as_json));
    let reparsed_op = Operation::from_json(&reparsed_value).expect("operation shape");
    assert!(json_eq(&reparsed_op.to_json(), &as_json));
    assert_eq!(to_canonical_bytes(&reparsed_op.to_json()), bytes);
}

#[test]
fn round_trip_add_public_keys() {
    assert_operation_round_trips(operation_with(DIDStatePatch::AddPublicKeys {
        public_keys: vec![sample_entry()],
    }));
}

#[test]
fn round_trip_remove_public_keys() {
    assert_operation_round_trips(operation_with(DIDStatePatch::RemovePublicKeys {
        ids: vec!["key-1".to_string(), "key-2".to_string()],
    }));
}

#[test]
fn round_trip_add_services() {
    assert_operation_round_trips(operation_with(DIDStatePatch::AddServices {
        services: vec![sample_service()],
    }));
}

#[test]
fn round_trip_remove_services() {
    assert_operation_round_trips(operation_with(DIDStatePatch::RemoveServices {
        ids: vec!["svc-1".to_string()],
    }));
}

#[test]
fn round_trip_replace() {
    assert_operation_round_trips(operation_with(DIDStatePatch::Replace {
        document: DocumentState {
            public_keys: Some(vec![sample_entry()]),
            services: Some(vec![sample_service()]),
        },
    }));
}

#[test]
fn round_trip_ietf_json_patch() {
    let patches = JsonValue::Array(vec![JsonValue::Object(vec![
        ("op".to_string(), JsonValue::Text("add".to_string())),
        ("path".to_string(), JsonValue::Text("/service".to_string())),
        ("value".to_string(), JsonValue::Int(3)),
    ])]);
    assert_operation_round_trips(operation_with(DIDStatePatch::IetfJsonPatch { patches }));
}

#[test]
fn round_trip_multibase_and_controller_entry() {
    let entry = PublicKeyEntry {
        id: "key-mb".to_string(),
        type_: "Multikey".to_string(),
        controller: Some("did:example:123".to_string()),
        public_key: PublicKey::PublicKeyMultibase("zQ3sh".to_string()),
        purposes: vec![VerificationRelationship::Authentication],
    };
    assert_operation_round_trips(operation_with(DIDStatePatch::AddPublicKeys {
        public_keys: vec![entry],
    }));
}

#[test]
fn round_trip_suffix_data_with_optional_fields() {
    let op = Operation::Create(CreateOperation {
        delta: Delta { patches: vec![], update_commitment: "u".to_string() },
        suffix_data: SuffixData {
            type_: Some("provisional".to_string()),
            delta_hash: "d".to_string(),
            recovery_commitment: "r".to_string(),
            anchor_origin: Some("origin".to_string()),
        },
    });
    assert_operation_round_trips(op);
}

#[test]
fn patch_actions_use_kebab_case_discriminants() {
    let patch = DIDStatePatch::RemovePublicKeys { ids: vec![] };
    let text = String::from_utf8(to_canonical_bytes(&patch.to_json())).unwrap();
    assert_eq!(text, "{\"action\":\"remove-public-keys\",\"ids\":[]}");
    let patch = DIDStatePatch::Replace {
        document: DocumentState { public_keys: None, services: None },
    };
    let text = String::from_utf8(to_canonical_bytes(&patch.to_json())).unwrap();
    assert_eq!(text, "{\"action\":\"replace\",\"document\":{}}");
}
