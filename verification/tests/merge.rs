use sandseal::config::ProfileChoice;
use sandseal::json::{deep_merge, Json};
use sandseal::merge::{merge_layer, merge_layers, resolve_layers};

fn conv(v: &serde_json::Value) -> Json {
    match v {
        serde_json::Value::Null => Json::Null,
        serde_json::Value::Bool(b) => Json::Bool(*b),
        serde_json::Value::Number(n) => Json::Number(n.to_string()),
        serde_json::Value::String(s) => Json::Str(s.clone()),
        serde_json::Value::Array(items) => Json::Array(items.iter().map(conv).collect()),
        serde_json::Value::Object(m) => {
            Json::Object(m.iter().map(|(k, x)| (k.clone(), conv(x))).collect())
        }
    }
}

fn j(text: &str) -> Json {
    conv(&serde_json::from_str::<serde_json::Value>(text).unwrap())
}

fn at<'a>(v: &'a Json, path: &[&str]) -> Option<&'a Json> {
    let mut cur = v;
    for key in path {
        cur = cur.get(key)?;
    }
    Some(cur)
}

fn item(v: &Json, i: usize) -> &Json {
    match v {
        Json::Array(items) => &items[i],
        _ => panic!("not an array"),
    }
}

#[test]
fn profile_wins_over_project() {
    let global = j(r#"{"network": {"mode": "host"}, "docker": {"passthrough": true}}"#);
    let project = j(r#"{"network": {"mode": "host"}, "container": {"memoryLimit": "8g"}}"#);
    let profile = j(r#"{"network": {"mode": "bridge"}, "docker": {"passthrough": false}}"#);

    let merged = merge_layers(&[global, project, profile]);

    assert_eq!(at(&merged, &["network", "mode"]), Some(&j(r#""bridge""#)));
    assert_eq!(at(&merged, &["docker", "passthrough"]), Some(&j("false")));
    assert_eq!(at(&merged, &["container", "memoryLimit"]), Some(&j(r#""8g""#)));
}

#[test]
fn array_layers_concatenate() {
    let global = j(r#"{"files": {"exclude": [".env"]}}"#);
    let project = j(r#"{"files": {"exclude": ["dist"]}}"#);
    let profile = j(r#"{"files": {"exclude": [".env.production", "secrets/"]}}"#);

    let merged = merge_layers(&[global, project, profile]);

    assert_eq!(
        at(&merged, &["files", "exclude"]),
        Some(&j(r#"[".env", "dist", ".env.production", "secrets/"]"#))
    );
}

#[test]
fn profile_replace_drops_inherited_secrets() {
    let global = j(r#"{
        "environment": {"API_TOKEN": "from-global", "DEPLOY_KEY": "from-global"},
        "files": {
            "exclude": [".env"],
            "include": {"/home/user/.config/creds": "/home/agent/.config/creds"}
        },
        "docker": {"passthrough": true}
    }"#);
    let project = j(r#"{
        "environment": {"PROJECT_VAR": "from-project"},
        "files": {"exclude": ["dist"]}
    }"#);
    let profile = j(r#"{
        "$replace": ["environment", "files.include"],
        "environment": {},
        "files": {"exclude": ["secrets/"]},
        "network": {"mode": "bridge"},
        "docker": {"passthrough": false}
    }"#);

    let merged = merge_layers(&[global, project, profile]);

    assert_eq!(at(&merged, &["environment"]), Some(&j("{}")));
    assert!(at(&merged, &["files", "include"]).is_none());
    assert_eq!(at(&merged, &["files", "exclude"]), Some(&j(r#"[".env", "dist", "secrets/"]"#)));
    assert_eq!(at(&merged, &["docker", "passthrough"]), Some(&j("false")));
    assert_eq!(at(&merged, &["network", "mode"]), Some(&j(r#""bridge""#)));
    assert!(merged.get("$replace").is_none());
}

#[test]
fn no_layers_yields_empty_object() {
    assert_eq!(merge_layers(&[]), j("{}"));
}

#[test]
fn flags_map_to_choices() {
    assert_eq!(ProfileChoice::from_flags(None, false), ProfileChoice::Active);
    assert_eq!(ProfileChoice::from_flags(Some("night"), false), ProfileChoice::Named("night".into()));
    assert_eq!(ProfileChoice::from_flags(Some("night"), true), ProfileChoice::Disabled);
}

#[test]
fn merge_objects_recursively() {
    let a = j(r#"{"files": {"exclude": [".env"]}, "environment": {"A": "1"}}"#);
    let b = j(r#"{"files": {"exclude": ["dist"]}, "environment": {"B": "2"}}"#);
    let result = deep_merge(&a, &b);

    assert_eq!(at(&result, &["files", "exclude"]), Some(&j(r#"[".env", "dist"]"#)));
    assert_eq!(at(&result, &["environment", "A"]), Some(&j(r#""1""#)));
    assert_eq!(at(&result, &["environment", "B"]), Some(&j(r#""2""#)));
}

#[test]
fn merge_arrays_dedup() {
    let a = j(r#"[".env", ".env.local"]"#);
    let b = j(r#"[".env", "dist"]"#);
    assert_eq!(deep_merge(&a, &b), j(r#"[".env", ".env.local", "dist"]"#));
}

#[test]
fn scalar_b_wins() {
    assert_eq!(deep_merge(&j(r#""old""#), &j(r#""new""#)), j(r#""new""#));
}

#[test]
fn nested_object_merge() {
    let a = j(r#"{"hooks": {"setup": {"script": "a.sh"}}}"#);
    let b = j(r#"{"hooks": {"prestart": [{"script": "b.sh"}]}}"#);
    let result = deep_merge(&a, &b);

    assert_eq!(at(&result, &["hooks", "setup", "script"]), Some(&j(r#""a.sh""#)));
    let prestart = at(&result, &["hooks", "prestart"]).unwrap();
    assert_eq!(item(prestart, 0).get("script"), Some(&j(r#""b.sh""#)));
}

#[test]
fn empty_merge() {
    let result = deep_merge(&j("{}"), &j(r#"{"files": {"exclude": [".env"]}}"#));
    assert_eq!(at(&result, &["files", "exclude"]), Some(&j(r#"[".env"]"#)));
}

#[test]
fn replace_drops_inherited_object_keys() {
    let acc = j(r#"{"environment": {"API_TOKEN": "inherited", "DEPLOY_KEY": "inherited"}}"#);
    let layer = j(r#"{"$replace": ["environment"], "environment": {"CI": "1"}}"#);
    let result = merge_layer(&acc, &layer);
    assert_eq!(at(&result, &["environment"]), Some(&j(r#"{"CI": "1"}"#)));
}

#[test]
fn replace_with_empty_object_clears_everything() {
    let acc = j(r#"{"environment": {"API_TOKEN": "inherited"}}"#);
    let layer = j(r#"{"$replace": ["environment"], "environment": {}}"#);
    assert_eq!(merge_layer(&acc, &layer).get("environment"), Some(&j("{}")));
}

#[test]
fn replace_overrides_array_concatenation() {
    let acc = j(r#"{"dependencies": ["jq", "curl"]}"#);
    let layer = j(r#"{"$replace": ["dependencies"], "dependencies": ["ripgrep"]}"#);
    assert_eq!(merge_layer(&acc, &layer).get("dependencies"), Some(&j(r#"["ripgrep"]"#)));
}

#[test]
fn replace_targets_nested_paths_only() {
    let acc = j(r#"{
        "files": {
            "exclude": [".env"],
            "include": {"/home/user/.config/creds": "/home/agent/.config/creds"}
        }
    }"#);
    let layer = j(r#"{"$replace": ["files.include"], "files": {"exclude": ["dist"]}}"#);
    let result = merge_layer(&acc, &layer);
    assert!(at(&result, &["files", "include"]).is_none());
    assert_eq!(at(&result, &["files", "exclude"]), Some(&j(r#"[".env", "dist"]"#)));
}

#[test]
fn replace_directive_is_stripped_from_output() {
    let layer = j(r#"{"$replace": ["environment"], "environment": {}}"#);
    let result = merge_layer(&j("{}"), &layer);
    assert!(result.get("$replace").is_none());
}

#[test]
fn replace_of_missing_path_is_a_noop() {
    let acc = j(r#"{"network": {"mode": "host"}}"#);
    let layer = j(r#"{"$replace": ["environment", "files.include"]}"#);
    assert_eq!(merge_layer(&acc, &layer), j(r#"{"network": {"mode": "host"}}"#));
}

#[test]
fn without_directive_merge_layer_matches_deep_merge() {
    let acc = j(r#"{"environment": {"A": "1"}, "files": {"exclude": [".env"]}}"#);
    let layer = j(r#"{"environment": {"B": "2"}, "files": {"exclude": ["dist"]}}"#);
    assert_eq!(merge_layer(&acc, &layer), deep_merge(&acc, &layer));
}

#[test]
fn the_machine_wide_slice_leaves_the_project_out() {
    let global = j(r#"{"dependencies": ["jq"]}"#);
    let project = j(r#"{"dependencies": ["make"]}"#);
    let profile = j(r#"{"network": {"mode": "bridge"}}"#);
    let (value, shared) = resolve_layers(Some(global), Some(project), Some(profile));
    assert_eq!(value, j(r#"{"dependencies": ["jq", "make"], "network": {"mode": "bridge"}}"#));
    assert_eq!(shared, j(r#"{"dependencies": ["jq"], "network": {"mode": "bridge"}}"#));
    let (value, shared) = resolve_layers(None, None, None);
    assert_eq!(value, j("{}"));
    assert_eq!(shared, j("{}"));
}

#[test]
fn a_later_scalar_wins_at_every_depth() {
    let a = j(r#"{"a": {"b": 1, "c": [1]}}"#);
    let b = j(r#"{"a": {"b": 2, "c": [1, 2]}}"#);
    assert_eq!(deep_merge(&a, &b), j(r#"{"a": {"b": 2, "c": [1, 2]}}"#));
}

#[test]
fn merging_with_an_empty_object_gives_the_other_side_back() {
    let v = j(r#"{"a": [1, 2], "b": {"c": "d"}}"#);
    assert_eq!(deep_merge(&j("{}"), &v), v);
    assert_eq!(deep_merge(&v, &j("{}")), v);
    assert_eq!(deep_merge(&j("{}"), &j("[1]")), j("[1]"));
}
