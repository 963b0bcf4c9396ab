use didkit::json::{to_canonical_bytes, JsonValue};
use didkit::metadata::{metadata_properties_to_value, metadata_to_json, Metadata, MetadataProperty};

fn canonical(v: &JsonValue) -> String {
    String::from_utf8(to_canonical_bytes(v)).unwrap()
}

#[test]
fn parse_splits_at_the_first_equals_sign() {
    let p = MetadataProperty::parse("name=value=more");
    assert_eq!(p.name, "name");
    assert!(matches!(p.value, Metadata::Text(ref v) if v == "value=more"));
}

#[test]
fn parse_without_equals_is_a_true_flag() {
    let p = MetadataProperty::parse("flag");
    assert_eq!(p.name, "flag");
    assert!(matches!(p.value, Metadata::Boolean(true)));
}

#[test]
fn parse_accepts_empty_values() {
    let p = MetadataProperty::parse("name=");
    assert_eq!(p.name, "name");
    assert!(matches!(p.value, Metadata::Text(ref v) if v.is_empty()));
}

#[test]
fn metadata_converts_to_json() {
    let m = Metadata::Object(vec![
        ("a".to_string(), Metadata::List(vec![Metadata::Null, Metadata::Boolean(false)])),
        ("b".to_string(), Metadata::Text("x".to_string())),
    ]);
    assert_eq!(canonical(&metadata_to_json(&m)), "{\"a\":[null,false],\"b\":\"x\"}");
}

#[test]
fn single_options_stay_single() {
    let props = vec![
        MetadataProperty::parse("beta=2"),
        MetadataProperty::parse("alpha=1"),
    ];
    let v = metadata_properties_to_value(&props);
    assert_eq!(canonical(&v), "{\"alpha\":\"1\",\"beta\":\"2\"}");
}

#[test]
fn repeated_options_fold_into_arrays() {
    let props = vec![
        MetadataProperty::parse("k=1"),
        MetadataProperty::parse("k=2"),
    ];
    let v = metadata_properties_to_value(&props);
    assert_eq!(canonical(&v), "{\"k\":[\"1\",\"2\"]}");

    let props = vec![
        MetadataProperty::parse("k=1"),
        MetadataProperty::parse("k=2"),
        MetadataProperty::parse("k=3"),
    ];
    let v = metadata_properties_to_value(&props);
    assert_eq!(canonical(&v), "{\"k\":[\"1\",\"2\",\"3\"]}");
}

#[test]
fn null_placeholders_are_replaced_not_folded() {
    let props = vec![
        MetadataProperty { name: "k".to_string(), value: Metadata::Null },
        MetadataProperty::parse("k=v"),
    ];
    let v = metadata_properties_to_value(&props);
    assert_eq!(canonical(&v), "{\"k\":\"v\"}");
}

#[test]
fn empty_property_lists_give_an_empty_object() {
    let v = metadata_properties_to_value(&Vec::new());
    assert_eq!(canonical(&v), "{}");
}

#[test]
fn a_list_value_absorbs_later_repeats() {
    // Inherited merge rule: when the existing value is already an array, a
    // repeated name appends to it instead of nesting.
    let props = vec![
        MetadataProperty {
            name: "k".to_string(),
            value: Metadata::List(vec![Metadata::Text("a".to_string())]),
        },
        MetadataProperty::parse("k=b"),
    ];
    let v = metadata_properties_to_value(&props);
    assert_eq!(canonical(&v), "{\"k\":[\"a\",\"b\"]}");
}
