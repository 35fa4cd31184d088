use sandseal::config::{
    active_profile, choose_editor, copied_profile, list_lines, new_profile_json, profile_info,
    profile_path, require_active, resolve_profile, set_active_profile, sort_profiles, state_path,
    validate_name, GcSettings, ProfileChoice, ProfileInfo, ProfileSource, Scope, Settings, State,
    SCHEMA_URL,
};
use sandseal::json::Json;

fn conv(v: &serde_json::Value) -> Json {
    match v {
        serde_json::Value::Null => Json::Null,
        serde_json::Value::Bool(b) => Json::Bool(*b),
        serde_json::Value::Number(n) => Json::Number(n.to_string()),
        serde_json::Value::String(s) => Json::Str(s.clone()),
        serde_json::Value::Array(items) => Json::Array(items.iter().map(conv).collect()),
        serde_json::Value::Object(m) => {
            Json::Object(m.iter().map(|(k, x)| (k.clone(), conv(x))).collect())
        }
    }
}

fn j(text: &str) -> Json {
    conv(&serde_json::from_str::<serde_json::Value>(text).unwrap())
}

fn with_gc(on_start: Option<Option<bool>>) -> Settings {
    let mut s = Settings::default();
    s.gc = on_start.map(|b| GcSettings { on_start: b });
    s
}

#[test]
fn accepts_plain_names() {
    assert!(validate_name("night").is_ok());
    assert!(validate_name("no-prod_secrets2").is_ok());
}

#[test]
fn rejects_path_traversal_and_junk() {
    assert!(validate_name("").is_err());
    assert!(validate_name("../escape").is_err());
    assert!(validate_name("a/b").is_err());
    assert!(validate_name("dot.name").is_err());
    assert!(validate_name("with space").is_err());
}

#[test]
fn name_errors_say_what_is_wrong() {
    assert_eq!(validate_name("").unwrap_err(), "profile name cannot be empty");
    assert_eq!(
        validate_name("a/b").unwrap_err(),
        "invalid profile name 'a/b': use letters, digits, '-' and '_' only"
    );
}

#[test]
fn the_start_sweep_is_on_unless_someone_turns_it_off() {
    assert!(with_gc(None).gc_on_start());
    assert!(with_gc(Some(None)).gc_on_start());
    assert!(with_gc(Some(Some(true))).gc_on_start());
    assert!(!with_gc(Some(Some(false))).gc_on_start());
}

#[test]
fn clearing_removes_the_key() {
    let mut state = State::default();
    set_active_profile(&mut state, Some("review"));
    assert_eq!(state.active_profile.as_deref(), Some("review"));
    set_active_profile(&mut state, None);
    assert!(state.active_profile.is_none());
}

#[test]
fn project_state_wins_over_global() {
    let project = State { active_profile: Some("untrusted".into()) };
    let global = State { active_profile: Some("night".into()) };
    let (name, scope) = active_profile(&project, &global).unwrap();
    assert_eq!(name, "untrusted");
    assert_eq!(scope, Scope::Project);

    let (name, scope) = active_profile(&State::default(), &global).unwrap();
    assert_eq!(name, "night");
    assert_eq!(scope, Scope::Global);
    assert!(active_profile(&State::default(), &State::default()).is_none());
}

#[test]
fn state_files_live_under_dot_sandseal() {
    assert_eq!(state_path("/p", Scope::Project, None).unwrap(), "/p/.sandseal/state.json");
    assert_eq!(state_path("/p", Scope::Global, Some("/home/u")).unwrap(), "/home/u/.sandseal/state.json");
    assert_eq!(state_path("/p", Scope::Global, None).unwrap_err(), "cannot determine home directory");
}

#[test]
fn a_profile_is_a_json_file_named_after_it() {
    assert_eq!(profile_path("night", "/home/u/.sandseal/profiles").unwrap(), "/home/u/.sandseal/profiles/night.json");
    assert!(profile_path("../x", "/home/u/.sandseal/profiles").is_err());
}

#[test]
fn an_explicit_name_beats_the_active_profile() {
    assert_eq!(require_active(Some("a".into()), Some(("b".into(), Scope::Project))).unwrap(), "a");
    assert_eq!(require_active(None, Some(("b".into(), Scope::Global))).unwrap(), "b");
    assert_eq!(
        require_active(None, None).unwrap_err(),
        "no active profile \u{2014} pass a name or run `sandseal config set <name>`"
    );
}

#[test]
fn the_choice_decides_the_profile_and_where_it_came_from() {
    let active = Some(("night".to_string(), Scope::Global));
    assert_eq!(resolve_profile(&ProfileChoice::Disabled, active.clone()), None);
    assert_eq!(
        resolve_profile(&ProfileChoice::Named("x".into()), active.clone()),
        Some(("x".to_string(), ProfileSource::Flag))
    );
    assert_eq!(
        resolve_profile(&ProfileChoice::Active, active),
        Some(("night".to_string(), ProfileSource::State(Scope::Global)))
    );
    assert_eq!(resolve_profile(&ProfileChoice::Active, None), None);
    assert_eq!(ProfileSource::Flag.label(), "--profile");
    assert_eq!(ProfileSource::State(Scope::Project).label(), "project");
    assert_eq!(Scope::Global.label(), "global");
}

#[test]
fn new_and_copied_profiles_carry_a_description() {
    let expected = format!(r#"{{"$schema": "{SCHEMA_URL}", "description": "night profile"}}"#);
    assert_eq!(new_profile_json("night"), j(&expected));
    let copied = copied_profile(j(r#"{"description": "old", "network": {"mode": "bridge"}}"#), "base");
    assert_eq!(copied, j(r#"{"description": "copied from base", "network": {"mode": "bridge"}}"#));
}

#[test]
fn a_listed_profile_shows_its_description_when_it_has_one() {
    let v = j(r#"{"description": "locked down"}"#);
    let info = profile_info("night".into(), Some(&v));
    assert_eq!(info.description.as_deref(), Some("locked down"));
    let info = profile_info("plain".into(), Some(&j("{}")));
    assert!(info.description.is_none());
    let info = profile_info("broken".into(), None);
    assert!(info.description.is_none());
}

#[test]
fn profiles_are_listed_by_name() {
    let v = vec![
        ProfileInfo { name: "zeta".into(), description: None },
        ProfileInfo { name: "alpha".into(), description: Some("a".into()) },
        ProfileInfo { name: "mid".into(), description: None },
    ];
    let names: Vec<String> = sort_profiles(v).into_iter().map(|p| p.name).collect();
    assert_eq!(names, vec!["alpha", "mid", "zeta"]);
}

#[test]
fn the_listing_marks_the_active_profile_and_aligns_descriptions() {
    let v = vec![
        ProfileInfo { name: "a".into(), description: Some("first".into()) },
        ProfileInfo { name: "longer".into(), description: None },
        ProfileInfo { name: "mid".into(), description: Some("third".into()) },
    ];
    assert_eq!(
        list_lines(&v, Some("longer")),
        vec!["    a       first", "  * longer", "    mid     third"]
    );
    assert_eq!(
        list_lines(&vec![], None),
        vec!["    (none) \u{2014} create one with `sandseal config create <name>`"]
    );
}

#[test]
fn the_editor_comes_from_visual_then_editor_then_vi() {
    assert_eq!(choose_editor(Some("code".into()), Some("nano".into())), "code");
    assert_eq!(choose_editor(None, Some("nano".into())), "nano");
    assert_eq!(choose_editor(None, None), "vi");
}
