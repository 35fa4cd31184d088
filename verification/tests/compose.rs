use sandseal::compose::{agent_command, generate_compose_override, ComposeContext, HostFacts};
use sandseal::config::{MemoryScopeSettings, MemorySettings, Settings};
use sandseal::memory::{MemorySession, MCP_CONFIG_PATH, SETTINGS_PATH};

fn context(settings: Settings, memory: Option<MemorySession>) -> ComposeContext {
    ComposeContext {
        project_dir: "/work/demo".into(),
        project_name: "demo".into(),
        instance_name: "agent".into(),
        image: "sandseal-sandbox/agent-gemini:test".into(),
        sandbox_home: "/home/agent".into(),
        debug: false,
        agent_args: vec![],
        settings,
        tmp_dir: "/tmp/sandseal/agent".into(),
        script_dir: "/opt/sandseal-scripts".into(),
        memory,
    }
}

fn facts() -> HostFacts {
    HostFacts {
        env: vec![],
        home: Some("/home/me".into()),
        exclusion_probes: vec![],
        inclusions_present: vec![],
        workspace_is_dir: false,
        settings_file_present: true,
        skills_present: false,
        memory_config_present: false,
        own_exe: Some("/usr/bin/sandseal".into()),
        prestart_present: false,
        agent_command_file: Ok(r#"["gemini", "--dangerously-skip-permissions"]"#.into()),
    }
}

fn session(token: &str) -> MemorySession {
    MemorySession { id: "sess_1".into(), token: token.into(), api_url: "https://sandseal.io".into() }
}

fn narrowed() -> Settings {
    let mut s = Settings::default();
    s.memory = Some(MemorySettings {
        scope: Some(MemoryScopeSettings { project: None, cross_project: Some(false) }),
    });
    s
}

#[test]
fn bundled_skills_are_mounted_read_only_when_present() {
    let mut f = facts();
    f.skills_present = true;
    let yaml = generate_compose_override(&context(Settings::default(), None), &f).unwrap();
    assert!(yaml.contains("/opt/sandseal/skills:ro"), "{yaml}");
}

#[test]
fn no_skills_mount_when_the_directory_is_absent() {
    let yaml = generate_compose_override(&context(Settings::default(), None), &facts()).unwrap();
    assert!(!yaml.contains("/opt/sandseal/skills"));
}

#[test]
fn memory_credential_and_bridge_binary_reach_the_container() {
    let yaml = generate_compose_override(&context(Settings::default(), Some(session("tok_abc"))), &facts()).unwrap();
    assert!(yaml.contains("SANDSEAL_MEMORY_TOKEN: \"tok_abc\""), "{yaml}");
    assert!(yaml.contains("SANDSEAL_API_URL: \"https://sandseal.io\""), "{yaml}");
    assert!(yaml.contains("/usr/local/bin/sandseal:ro"), "{yaml}");
}

#[test]
fn recall_spans_the_space_unless_the_settings_narrow_it() {
    let yaml = generate_compose_override(&context(Settings::default(), Some(session("tok"))), &facts()).unwrap();
    assert!(yaml.contains("SANDSEAL_MEMORY_CROSS_PROJECT: \"1\""), "{yaml}");
    let yaml = generate_compose_override(&context(narrowed(), Some(session("tok"))), &facts()).unwrap();
    assert!(yaml.contains("SANDSEAL_MEMORY_CROSS_PROJECT: \"0\""), "{yaml}");
}

#[test]
fn no_memory_means_no_scope_variable() {
    let yaml = generate_compose_override(&context(Settings::default(), None), &facts()).unwrap();
    assert!(!yaml.contains("SANDSEAL_MEMORY_CROSS_PROJECT"), "{yaml}");
}

#[test]
fn the_agent_is_told_to_load_the_memory_config() {
    let mut f = facts();
    f.memory_config_present = true;
    let yaml = generate_compose_override(&context(Settings::default(), Some(session("tok"))), &f).unwrap();
    assert!(yaml.contains("--mcp-config"), "{yaml}");
    assert!(yaml.contains(MCP_CONFIG_PATH), "{yaml}");
    assert!(yaml.contains("--settings"), "{yaml}");
    assert!(yaml.contains(SETTINGS_PATH), "{yaml}");
}

#[test]
fn nothing_memory_related_leaks_in_when_the_session_has_no_memory() {
    let mut f = facts();
    f.memory_config_present = true;
    let yaml = generate_compose_override(&context(Settings::default(), None), &f).unwrap();
    assert!(!yaml.contains("SANDSEAL_MEMORY_TOKEN"));
    assert!(!yaml.contains("/usr/local/bin/sandseal"));
    assert!(!yaml.contains("--mcp-config"));
}

#[test]
fn the_machine_wide_settings_mount_is_read_only() {
    let yaml = generate_compose_override(&context(Settings::default(), None), &facts()).unwrap();
    let mut seen = false;
    for line in yaml.lines() {
        if line.contains("/.sandseal/settings.json") {
            seen = true;
            assert!(line.trim_end().trim_end_matches('"').ends_with(":ro"), "{line}");
        }
    }
    assert!(seen, "{yaml}");
}

#[test]
fn an_unreadable_agent_command_fails_the_override() {
    let mut f = facts();
    f.agent_command_file = Err("no such file".into());
    assert!(generate_compose_override(&context(Settings::default(), None), &f).is_err());
}

#[test]
fn the_agent_command_comes_from_its_file() {
    let yaml = generate_compose_override(&context(Settings::default(), None), &facts()).unwrap();
    assert!(yaml.contains("command: [\"gemini\",\"--dangerously-skip-permissions\"]"), "{yaml}");
    assert!(yaml.contains("name: sandseal-sandbox-agent-home"), "{yaml}");
}

#[test]
fn the_agent_command_puts_the_user_arguments_last() {
    let listed = vec!["agent-cli".to_string(), "--yes".to_string()];
    let args = vec!["--model".to_string(), "x".to_string()];
    assert_eq!(
        agent_command(listed.clone(), &args, true),
        vec!["agent-cli", "--yes", "--mcp-config", MCP_CONFIG_PATH, "--settings", SETTINGS_PATH, "--model", "x"]
    );
    assert_eq!(agent_command(listed, &args, false), vec!["agent-cli", "--yes", "--model", "x"]);
}
