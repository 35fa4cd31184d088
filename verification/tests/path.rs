use sandseal::path::{
    exclusion_target, expand_env_vars, expand_tilde, glob_pattern, has_glob_chars,
    inclusion_mount, resolve_container_path, resolve_exclusions, resolve_host_path,
    resolve_inclusions, strip_trailing_slash, ExclusionMount, ExclusionTarget, PathKind, Probe,
};

fn env(pairs: &[(&str, &str)]) -> Vec<(String, String)> {
    pairs.iter().map(|(k, v)| (k.to_string(), v.to_string())).collect()
}

#[test]
fn tilde_expansion() {
    let home = "/home/tester";
    assert_eq!(expand_tilde("~/projects", Some(home)), format!("{home}/projects"));
    assert_eq!(expand_tilde("~", Some(home)), home.to_string());
    assert_eq!(expand_tilde("/absolute/path", Some(home)), "/absolute/path");
    assert_eq!(expand_tilde("~/x", None), "~/x");
}

#[test]
fn env_var_expansion() {
    let e = env(&[("SANDSEAL_TEST_VAR", "hello")]);
    assert_eq!(expand_env_vars("$SANDSEAL_TEST_VAR/world", &e), "hello/world");
    assert_eq!(expand_env_vars("${SANDSEAL_TEST_VAR}/world", &e), "hello/world");
}

#[test]
fn undefined_and_empty_variables_are_left_as_written() {
    let e = env(&[]);
    assert_eq!(expand_env_vars("$NOPE/x", &e), "$NOPE/x");
    assert_eq!(expand_env_vars("${NOPE}", &e), "${NOPE}");
    assert_eq!(expand_env_vars("a$", &e), "a$");
    assert_eq!(expand_env_vars("${}x", &e), "${}x");
    assert_eq!(expand_env_vars("cost: $5", &env(&[("5", "five")])), "cost: five");
}

#[test]
fn glob_chars_detection() {
    assert!(has_glob_chars(".env*"));
    assert!(has_glob_chars("**/*.rs"));
    assert!(has_glob_chars("file[0-9]"));
    assert!(!has_glob_chars(".env"));
    assert!(!has_glob_chars("node_modules"));
}

#[test]
fn trailing_slash_strip() {
    assert_eq!(strip_trailing_slash("node_modules/"), "node_modules");
    assert_eq!(strip_trailing_slash("dir///"), "dir");
    assert_eq!(strip_trailing_slash("file"), "file");
}

#[test]
fn resolve_relative_path() {
    let base = "/home/user/project";
    assert_eq!(resolve_host_path("./config", base, &[], None), "/home/user/project/./config");
    assert_eq!(resolve_host_path("/absolute", base, &[], None), "/absolute");
}

#[test]
fn container_paths_use_the_sandbox_home() {
    assert_eq!(resolve_container_path("~/.config/x", "/home/agent", "/p", &[]), "/home/agent/.config/x");
    assert_eq!(resolve_container_path("~", "/home/agent", "/p", &[]), "/home/agent");
    assert_eq!(resolve_container_path("rel", "/home/agent", "/p", &[]), "/p/rel");
}

#[test]
fn a_glob_is_anchored_at_the_project() {
    assert_eq!(glob_pattern("**/*.pem", "/p"), "/p/**/*.pem");
    assert_eq!(glob_pattern("/abs/*.pem", "/p"), "/abs/*.pem");
    match exclusion_target(".env*/", "/p", &[], None) {
        ExclusionTarget::Glob(g) => assert_eq!(g, "/p/.env*"),
        ExclusionTarget::Path(_) => panic!("a pattern is a glob"),
    }
    match exclusion_target("secrets/", "/p", &[], None) {
        ExclusionTarget::Path(p) => assert_eq!(p, "/p/secrets"),
        ExclusionTarget::Glob(_) => panic!("a plain entry is a path"),
    }
}

#[test]
fn exclusions_mount_each_path_once() {
    let probes = vec![
        Probe::Found(vec![("/p/.env".into(), PathKind::File), ("/p/dist".into(), PathKind::Directory)]),
        Probe::Missing,
        Probe::Found(vec![("/p/.env".into(), PathKind::File), ("/p/sock".into(), PathKind::Other)]),
    ];
    let mounts = resolve_exclusions(&probes).unwrap();
    let volumes: Vec<String> = mounts.iter().map(|m| m.to_volume_mount("/tmp/i")).collect();
    assert_eq!(volumes, vec!["/dev/null:/p/.env:ro", "/tmp/i/excluded-dirs/p/dist:/p/dist"]);
    assert!(matches!(mounts[0], ExclusionMount::File(_)));
}

#[test]
fn a_failed_glob_fails_the_exclusions() {
    let probes = vec![Probe::Failed("Pattern syntax error".into()), Probe::Missing];
    assert_eq!(resolve_exclusions(&probes).err(), Some("Pattern syntax error".to_string()));
}

#[test]
fn inclusions_whose_host_path_is_missing_are_skipped() {
    let entries = vec![
        ("~/.config/creds/".to_string(), "~/.config/creds".to_string()),
        ("/nope".to_string(), "/x".to_string()),
    ];
    let mounts = resolve_inclusions(&entries, "/p", "/home/agent", &[], Some("/home/me"), &[true, false]);
    assert_eq!(mounts.len(), 1);
    assert_eq!(mounts[0].to_volume_mount(), "/home/me/.config/creds:/home/agent/.config/creds");
    let m = inclusion_mount("$D/a", "b", "/p", "/h", &env(&[("D", "/data")]), None);
    assert_eq!((m.host_path.as_str(), m.container_path.as_str()), ("/data/a", "/p/b"));
}
