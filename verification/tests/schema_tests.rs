use blueos_recorder::recorder::{MessageOutcome, Recorder};
use blueos_recorder::schema::create_schema;
use blueos_recorder::value::StructuredValue;

fn schema_of(v: StructuredValue) -> String {
    create_schema(&v)
}

#[test]
fn scalar_schemas() {
    assert_eq!(schema_of(StructuredValue::Null), "{\"type\":\"null\"}");
    assert_eq!(schema_of(StructuredValue::Bool(true)), "{\"type\":\"boolean\"}");
    assert_eq!(schema_of(StructuredValue::Int(-3)), "{\"type\":\"integer\"}");
    assert_eq!(
        schema_of(StructuredValue::BigInt(u64::MAX)),
        "{\"type\":\"number\"}"
    );
    assert_eq!(schema_of(StructuredValue::NonIntegral), "{\"type\":\"number\"}");
    assert_eq!(
        schema_of(StructuredValue::Text("x".to_string())),
        "{\"type\":\"string\"}"
    );
}

#[test]
fn array_schemas_sample_the_first_element() {
    assert_eq!(
        schema_of(StructuredValue::Array(vec![])),
        "{\"items\":{},\"type\":\"array\"}"
    );
    assert_eq!(
        schema_of(StructuredValue::Array(vec![
            StructuredValue::Int(1),
            StructuredValue::Text("mixed".to_string()),
        ])),
        "{\"items\":{\"type\":\"integer\"},\"type\":\"array\"}"
    );
}

#[test]
fn object_schema_keeps_all_keys() {
    let v = StructuredValue::Object(vec![
        ("arr".to_string(), StructuredValue::Array(vec![StructuredValue::Bool(false)])),
        ("num".to_string(), StructuredValue::NonIntegral),
        (
            "obj".to_string(),
            StructuredValue::Object(vec![("n".to_string(), StructuredValue::Null)]),
        ),
    ]);
    assert_eq!(
        schema_of(v),
        "{\"properties\":{\"arr\":{\"items\":{\"type\":\"boolean\"},\"type\":\"array\"},\"num\":{\"type\":\"number\"},\"obj\":{\"properties\":{\"n\":{\"type\":\"null\"}},\"type\":\"object\"}},\"type\":\"object\"}"
    );
}

#[test]
fn object_keys_are_escaped() {
    let v = StructuredValue::Object(vec![
        ("a\"b".to_string(), StructuredValue::Null),
        ("c\\d".to_string(), StructuredValue::Null),
        ("e\nf".to_string(), StructuredValue::Null),
        ("g\u{1}h".to_string(), StructuredValue::Null),
    ]);
    assert_eq!(
        schema_of(v),
        "{\"properties\":{\"a\\\"b\":{\"type\":\"null\"},\"c\\\\d\":{\"type\":\"null\"},\"e\\nf\":{\"type\":\"null\"},\"g\\u0001h\":{\"type\":\"null\"}},\"type\":\"object\"}"
    );
}

#[test]
fn synthesis_is_deterministic() {
    let build = || {
        StructuredValue::Object(vec![
            ("a".to_string(), StructuredValue::Int(1)),
            ("b".to_string(), StructuredValue::Text("x".to_string())),
        ])
    };
    assert_eq!(schema_of(build()), schema_of(build()));
    // A value of the same shape with other scalar payloads synthesizes
    // byte-identical output.
    let other = StructuredValue::Object(vec![
        ("a".to_string(), StructuredValue::Int(99)),
        ("b".to_string(), StructuredValue::Text("other".to_string())),
    ]);
    assert_eq!(schema_of(build()), schema_of(other));
}

fn record_and_read_schema(payload: &[u8], encoding: &str) -> (String, String) {
    let mut rec = Recorder::new(
        "control",
        "/tmp/out".to_string(),
        "/tmp/schemas".to_string(),
        0,
    )
    .unwrap();
    let r = rec.ingest("control", b"{\"bits\":255}", "application/octet-stream", None, 1);
    assert!(r.opened.is_some());
    let r = rec.ingest("ns/sub/topic", payload, encoding, None, 2);
    assert!(matches!(r.outcome, MessageOutcome::Recorded { .. }));
    let bytes = rec.shutdown().unwrap().bytes;
    let mut stream = mcap::MessageStream::new(&bytes).unwrap();
    let m = stream.next().unwrap().unwrap();
    let schema = m.channel.schema.as_ref().unwrap();
    (
        schema.name.to_string(),
        String::from_utf8(schema.data.to_vec()).unwrap(),
    )
}

#[test]
fn parsed_objects_arrive_with_sorted_keys() {
    // Key order in the payload does not matter: the synthesized schema is
    // canonical.
    let (_, one) = record_and_read_schema(b"{\"b\":2,\"a\":1}", "application/json");
    let (_, two) = record_and_read_schema(b"{\"a\":7,\"b\":0}", "application/json");
    assert_eq!(one, two);
    assert_eq!(
        one,
        "{\"properties\":{\"a\":{\"type\":\"integer\"},\"b\":{\"type\":\"integer\"}},\"type\":\"object\"}"
    );
}

#[test]
fn structured_text_schema_name_canonicalizes_the_topic() {
    let (name, _) = record_and_read_schema(b"{\"a\":1}", "application/json");
    assert_eq!(name, "ns.sub.topic");
}

#[test]
fn structured_text_schema_name_prefers_the_descriptor_token() {
    let (name, _) = record_and_read_schema(b"{\"a\":1}", "application/json;custom.Name");
    assert_eq!(name, "custom.Name");
}

#[test]
fn number_kinds_follow_the_payload() {
    let (_, text) = record_and_read_schema(b"{\"i\":5,\"f\":1.5}", "application/json");
    assert_eq!(
        text,
        "{\"properties\":{\"f\":{\"type\":\"number\"},\"i\":{\"type\":\"integer\"}},\"type\":\"object\"}"
    );
}
