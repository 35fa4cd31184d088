use sandseal::json::Json;
use sandseal::jsontext::to_json_text;
use sandseal::validate::{
    schema_knows_path, settings_verdict, validate_replace_paths, validate_settings, violation_line,
};

fn conv(v: &serde_json::Value) -> Json {
    match v {
        serde_json::Value::Null => Json::Null,
        serde_json::Value::Bool(b) => Json::Bool(*b),
        serde_json::Value::Number(n) => Json::Number(n.to_string()),
        serde_json::Value::String(s) => Json::Str(s.clone()),
        serde_json::Value::Array(items) => Json::Array(items.iter().map(conv).collect()),
        serde_json::Value::Object(m) => {
            Json::Object(m.iter().map(|(k, x)| (k.clone(), conv(x))).collect())
        }
    }
}

fn j(text: &str) -> Json {
    conv(&serde_json::from_str::<serde_json::Value>(text).unwrap())
}

/// The settings schema's shape where these checks look: fixed keys under `properties`,
/// free-form maps under `additionalProperties`.
fn schema() -> Json {
    j(r#"{
        "type": "object",
        "additionalProperties": false,
        "properties": {
            "$schema": {"type": "string"},
            "$replace": {"type": "array", "items": {"type": "string"}},
            "description": {"type": "string"},
            "environment": {"type": "object", "additionalProperties": {"type": "string"}},
            "dependencies": {"type": "array", "items": {"type": "string"}},
            "files": {
                "type": "object",
                "additionalProperties": false,
                "properties": {
                    "include": {"type": "object", "patternProperties": {"^.": {"type": "string"}}},
                    "exclude": {"type": "array", "items": {"type": "string"}}
                }
            },
            "docker": {"type": "object", "properties": {"passthrough": {"type": "boolean"}}},
            "network": {
                "type": "object",
                "properties": {
                    "mode": {"type": "string"},
                    "services": {"type": "object", "additionalProperties": {"type": "string"}}
                }
            },
            "memory": {
                "type": "object",
                "additionalProperties": false,
                "properties": {
                    "scope": {
                        "type": "object",
                        "additionalProperties": false,
                        "properties": {
                            "project": {"type": "string", "pattern": "^[A-Za-z0-9._-]+$"},
                            "crossProject": {"type": "boolean"}
                        }
                    }
                }
            }
        }
    }"#)
}

#[test]
fn accepts_top_level_and_nested_keys() {
    let s = schema();
    assert!(schema_knows_path(&s, "environment"));
    assert!(schema_knows_path(&s, "dependencies"));
    assert!(schema_knows_path(&s, "files.include"));
    assert!(schema_knows_path(&s, "files.exclude"));
    assert!(schema_knows_path(&s, "docker.passthrough"));
}

#[test]
fn accepts_user_defined_keys_inside_free_form_maps() {
    let s = schema();
    assert!(schema_knows_path(&s, "environment.API_TOKEN"));
    assert!(schema_knows_path(&s, "network.services.db"));
}

#[test]
fn rejects_a_comma_separated_string() {
    assert!(!schema_knows_path(&schema(), "environment, files"));
}

#[test]
fn rejects_unknown_and_malformed_paths() {
    let s = schema();
    assert!(!schema_knows_path(&s, "envrionment"));
    assert!(!schema_knows_path(&s, "files.exclude.deeper"));
    assert!(!schema_knows_path(&s, "files."));
    assert!(!schema_knows_path(&s, ""));
}

#[test]
fn accepts_a_memory_scope() {
    assert!(schema_knows_path(&schema(), "memory.scope.project"));
    let value = j(r#"{"memory": {"scope": {"project": "popitchiweb", "crossProject": false}}}"#);
    assert!(validate_settings("settings.json", &schema(), &value).is_ok());
}

#[test]
fn rejects_a_project_name_the_server_would_refuse() {
    let value = j(r#"{"memory": {"scope": {"project": "not valid!"}}}"#);
    let err = validate_settings("settings.json", &schema(), &value).unwrap_err();
    assert!(err.contains("/memory/scope/project"), "{err}");
    assert!(err.starts_with("invalid settings in settings.json:\n  - /memory/scope/project: "), "{err}");
}

#[test]
fn rejects_the_flat_form_that_never_shipped() {
    assert!(validate_settings("settings.json", &schema(), &j(r#"{"memory": {"project": "demo"}}"#)).is_err());
}

#[test]
fn a_layer_the_schema_accepts_still_needs_known_replace_paths() {
    let value = j(r#"{"$replace": ["environment", "nope"]}"#);
    let err = validate_settings("p.json", &schema(), &value).unwrap_err();
    assert!(err.starts_with("invalid \"$replace\" in p.json:"), "{err}");
    let value = j(r#"{"$replace": ["environment"], "environment": {"A": "1"}}"#);
    assert!(validate_settings("p.json", &schema(), &value).is_ok());
}

#[test]
fn every_violation_gets_a_line() {
    let value = j(r#"{"description": 5, "dependencies": "x"}"#);
    let err = validate_settings("s.json", &schema(), &value).unwrap_err();
    assert!(err.starts_with("invalid settings in s.json:\n"), "{err}");
    assert_eq!(err.matches("\n  - ").count(), 2, "{err}");
    assert!(err.contains("  - /description: "), "{err}");
    assert!(err.contains("  - /dependencies: "), "{err}");
}

#[test]
fn a_schema_that_does_not_compile_is_an_error() {
    let bad = j(r#"{"type": 12}"#);
    assert_eq!(
        validate_settings("s.json", &bad, &j("{}")).unwrap_err(),
        "the settings schema is not a usable JSON Schema"
    );
}

#[test]
fn values_are_written_as_compact_json() {
    let value = j(r#"{"b": [1, true, null], "a": "q\"\\\n\u0001", "c": {}}"#);
    assert_eq!(to_json_text(&value), r#"{"a":"q\"\\\n\u0001","b":[1,true,null],"c":{}}"#);
    assert_eq!(to_json_text(&j("[]")), "[]");
}

#[test]
fn missing_directive_is_fine() {
    let value = j(r#"{"network": {"mode": "bridge"}}"#);
    assert!(validate_replace_paths(&schema(), &value, "x.json").is_ok());
}

#[test]
fn error_names_every_bad_entry() {
    let value = j(r#"{"$replace": ["environment, files", "environment", "nope"]}"#);
    let err = validate_replace_paths(&schema(), &value, "night.json").unwrap_err();
    assert!(err.contains("environment, files"));
    assert!(err.contains("nope"));
    assert!(err.contains("night.json"));
    assert_eq!(
        err,
        "invalid \"$replace\" in night.json:\n  - unknown path: \"environment, files\"\n  - unknown path: \"nope\"\n  Entries are dot-separated settings keys, one per array item \u{2014} e.g. [\"environment\", \"files.include\"]."
    );
}

#[test]
fn known_replace_paths_pass() {
    let value = j(r#"{"$replace": ["environment", "files.include"]}"#);
    assert!(validate_replace_paths(&schema(), &value, "p.json").is_ok());
}

#[test]
fn schema_violations_come_before_the_directive_check() {
    let lines = vec![violation_line("/memory/scope/project", "\"not valid!\" does not match pattern")];
    let value = j(r#"{"$replace": ["nope"]}"#);
    let err = settings_verdict("s.json", &lines, &schema(), &value).unwrap_err();
    assert_eq!(err, "invalid settings in s.json:\n  - /memory/scope/project: \"not valid!\" does not match pattern");
    assert!(err.contains("/memory/scope/project"));
    let err = settings_verdict("s.json", &vec![], &schema(), &value).unwrap_err();
    assert!(err.starts_with("invalid \"$replace\" in s.json:"));
}
