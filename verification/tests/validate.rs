use elm_core::config::validate::{
    judge, parse_json, validate_json_against_schema, violation_report, SchemaError,
};

const SCHEMA: &str = r#"{
  "type": "object",
  "required": ["schema", "id"],
  "properties": {
    "schema": { "const": "elm.engine.v1" },
    "id": { "type": "string", "minLength": 1 }
  }
}"#;

#[test]
fn a_document_that_meets_its_schema_is_accepted() {
    let doc = parse_json(r#"{"schema": "elm.engine.v1", "id": "ge-proton"}"#).unwrap();
    assert!(validate_json_against_schema(&doc, SCHEMA).is_ok());
}

#[test]
fn every_violation_is_reported() {
    let doc = parse_json(r#"{"schema": "other", "id": ""}"#).unwrap();
    match validate_json_against_schema(&doc, SCHEMA) {
        Err(SchemaError::DocumentInvalid(messages)) => assert_eq!(messages.len(), 2),
        other => panic!("expected an invalid document, found {:?}", other),
    }
}

#[test]
fn a_missing_field_is_a_violation() {
    let doc = parse_json(r#"{"schema": "elm.engine.v1"}"#).unwrap();
    match validate_json_against_schema(&doc, SCHEMA) {
        Err(SchemaError::DocumentInvalid(messages)) => {
            assert_eq!(messages.len(), 1);
            assert!(messages[0].contains("id"));
        }
        other => panic!("expected an invalid document, found {:?}", other),
    }
}

#[test]
fn a_schema_that_is_no_json_is_refused_as_such() {
    let doc = parse_json("{}").unwrap();
    assert!(matches!(
        validate_json_against_schema(&doc, "{ not json"),
        Err(SchemaError::SchemaNotJson(_))
    ));
    assert!(matches!(
        validate_json_against_schema(&doc, ""),
        Err(SchemaError::SchemaNotJson(_))
    ));
}

#[test]
fn a_schema_that_is_no_schema_is_refused_as_such() {
    let doc = parse_json("{}").unwrap();
    assert!(matches!(
        validate_json_against_schema(&doc, r#"{"type": 12}"#),
        Err(SchemaError::SchemaInvalid(_))
    ));
}

#[test]
fn json_is_parsed_or_refused() {
    let value = parse_json(r#"{"a": [1, 2, {"b": null}]}"#).unwrap();
    assert_eq!(value["a"][2]["b"], serde_json::Value::Null);
    assert_eq!(value["a"][1], serde_json::Value::from(2));
    assert!(parse_json("[1, 2").is_err());
    assert!(parse_json("").is_err());
    assert!(!parse_json("[1, 2").unwrap_err().is_empty());
}

#[test]
fn the_answer_of_the_validator_is_judged() {
    assert!(judge(vec![]).is_ok());
    match judge(vec!["a".to_string(), "b".to_string()]) {
        Err(SchemaError::DocumentInvalid(messages)) => assert_eq!(messages, vec!["a", "b"]),
        other => panic!("expected an invalid document, found {:?}", other),
    }
    match judge(vec!["".to_string()]) {
        Err(SchemaError::DocumentInvalid(messages)) => assert_eq!(messages, vec![""]),
        other => panic!("expected an invalid document, found {:?}", other),
    }
}

#[test]
fn violations_are_listed_one_to_a_line() {
    assert_eq!(
        violation_report(&vec!["a is wrong".to_string(), "b is missing".to_string()]),
        "schema validation failed:\n- a is wrong\n- b is missing"
    );
    assert_eq!(violation_report(&vec!["only".to_string()]), "schema validation failed:\n- only");
    assert_eq!(violation_report(&vec![]), "schema validation failed:\n- ");
    assert_eq!(
        violation_report(&vec!["".to_string(), "".to_string()]),
        "schema validation failed:\n- \n- "
    );
}
