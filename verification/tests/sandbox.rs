use sandseal::sandbox::{
    compose_down_args, instance_filter, ps_args, stale_filters, CleanupGuard, CleanupStep,
    container_ids_from, may_remove_tmp_dir, project_overlays, record_path, staging_path,
    InstanceRecord, SweepReport,
};

#[test]
fn a_clean_sweep_says_nothing() {
    assert!(SweepReport::default().is_empty());
}

#[test]
fn the_summary_names_both_kinds_of_leftover() {
    let report = SweepReport { reaped: vec!["sandseal-sandbox-demo-ab12".into()], removed_stale: 4 };
    assert_eq!(report.summary(), "Cleaned up 1 abandoned sandbox(es) and 4 stopped container(s).");
}

#[test]
fn the_summary_leaves_out_what_did_not_happen() {
    let report = SweepReport { reaped: Vec::new(), removed_stale: 2 };
    assert_eq!(report.summary(), "Cleaned up 2 stopped container(s).");
    let report = SweepReport { reaped: vec!["a".into(), "b".into()], removed_stale: 0 };
    assert_eq!(report.summary(), "Cleaned up 2 abandoned sandbox(es).");
    assert!(!report.is_empty());
}

#[test]
fn records_live_next_to_their_staging_file() {
    assert_eq!(record_path("/home/me/.sandseal/instances", "box-1"), "/home/me/.sandseal/instances/box-1.json");
    assert_eq!(staging_path("/home/me/.sandseal/instances", "box-1"), "/home/me/.sandseal/instances/.box-1.claiming");
    let r = InstanceRecord {
        instance_name: "trip".into(),
        project_dir: "/home/me/project".into(),
        tmp_dir: "/tmp/trip".into(),
        session_id: Some("sess_1".into()),
        api_url: Some("https://sandseal.io".into()),
        started_at: 1_700_000_000,
    };
    assert_eq!(r.clone().started_at, 1_700_000_000);
}

#[test]
fn only_the_cli_tmp_dirs_are_ever_removed() {
    assert!(may_remove_tmp_dir("/home/me/.sandseal/tmp/abc", Some("/home/me")));
    assert!(!may_remove_tmp_dir("/home/me/.sandseal/tmpx/abc", Some("/home/me")));
    assert!(!may_remove_tmp_dir("/etc", Some("/home/me")));
    assert!(!may_remove_tmp_dir("/home/me/.sandseal/tmp/abc", None));
}

#[test]
fn container_ids_are_the_non_blank_lines() {
    assert_eq!(container_ids_from(" abc \n\n def\r\n"), vec!["abc", "def"]);
    assert_eq!(container_ids_from(""), Vec::<String>::new());
}

#[test]
fn only_the_projects_overlays_are_removed() {
    let images = vec![
        "sandseal-sandbox/agent-gemini:base-0123456789ab".to_string(),
        "sandseal-sandbox/agent-gemini:web-12345678".to_string(),
        "sandseal-sandbox/agent-gemini:webshop-12345678".to_string(),
        "no-tag".to_string(),
    ];
    assert_eq!(project_overlays(&images, "web"), vec!["sandseal-sandbox/agent-gemini:web-12345678"]);
}

fn kinds(steps: &[CleanupStep]) -> Vec<String> {
    steps
        .iter()
        .map(|s| match s {
            CleanupStep::ComposeDown(c) => format!("down {}", c.join(" ")),
            CleanupStep::CleanupHooks(h, d) => format!("hooks {} in {d}", h.join(",")),
            CleanupStep::RemoveTmpDir(t) => format!("rm {t}"),
            CleanupStep::CloseSession(a, i) => format!("close {i} at {}", a.as_deref().unwrap_or("-")),
            CleanupStep::ReleaseRecord => "release".to_string(),
        })
        .collect()
}

#[test]
fn cleanup_runs_every_phase_once() {
    let mut g = CleanupGuard::new(
        vec!["docker".into(), "compose".into(), "down".into()],
        vec!["bye.sh".into()],
        "/p".into(),
        "/tmp/i".into(),
    );
    g.closing_session(Some("https://x".into()), "s1".into());
    g.holding();
    assert_eq!(
        kinds(&g.cleanup()),
        vec!["down docker compose down", "hooks bye.sh in /p", "rm /tmp/i", "close s1 at https://x", "release"]
    );
    assert!(g.is_done());
    assert!(g.cleanup().is_empty(), "a second cleanup must do nothing");
}

#[test]
fn a_sandbox_without_session_or_hooks_skips_those_phases() {
    let mut g = CleanupGuard::new(vec!["down".into()], vec![], "/p".into(), "/tmp/i".into());
    assert_eq!(kinds(&g.cleanup()), vec!["down down", "rm /tmp/i"]);
}

#[test]
fn the_collector_asks_docker_by_label() {
    assert_eq!(compose_down_args("box"), vec!["compose", "-p", "box", "down", "--remove-orphans"]);
    assert_eq!(
        ps_args(&instance_filter("box")),
        vec!["ps", "-a", "--filter", "label=sandseal.instance_name=box", "--format", "{{.ID}}"]
    );
    assert_eq!(stale_filters().len(), 6);
}
