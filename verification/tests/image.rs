use sandseal::image::{
    base_build_args, base_tag, build_command_args, build_needed, ensure_images, hex, image_id_from_output,
    overlay_build_args, overlay_tag, strip_cache_mounts, ImageSpec, Payload,
};

const WITH_MOUNTS: &str = r#"FROM ubuntu:24.04
RUN --mount=type=cache,target=/var/cache/apt,sharing=locked \
    --mount=type=cache,target=/var/lib/apt/lists,sharing=locked \
    apt-get update && apt-get install -y curl
RUN echo done
"#;

fn spec(project_deps: &[&str], rebuild: bool) -> ImageSpec {
    ImageSpec {
        agent: "gemini".into(),
        project_basename: "web".into(),
        base_image: "ubuntu:24.04".into(),
        apt_mirror: None,
        uid: 1000,
        gid: 1000,
        username: "agent".into(),
        home: "/home/agent".into(),
        shared: Payload { dependencies: vec!["jq".into(), "curl".into()], setup_script: None },
        project: Payload {
            dependencies: project_deps.iter().map(|s| s.to_string()).collect(),
            setup_script: None,
        },
        script_dir: "/opt/sandseal".into(),
        rebuild,
    }
}

fn pairs(v: &[(String, String)]) -> Vec<(&str, &str)> {
    v.iter().map(|(k, x)| (k.as_str(), x.as_str())).collect()
}

#[test]
fn strips_mount_flags_but_keeps_the_command() {
    let out = strip_cache_mounts(WITH_MOUNTS);
    assert!(!out.contains("--mount="));
    assert!(out.contains("apt-get update && apt-get install -y curl"));
    assert!(out.contains("RUN echo done"));
}

#[test]
fn leaves_the_run_joined_to_its_command() {
    let out = strip_cache_mounts(WITH_MOUNTS);
    assert!(out.contains("RUN \\\n    apt-get update"), "unexpected output:\n{out}");
}

#[test]
fn leaves_a_dockerfile_without_mounts_untouched() {
    let plain = "FROM ubuntu:24.04\nRUN apt-get update \\\n    && apt-get install -y curl\n";
    assert_eq!(strip_cache_mounts(plain), plain);
}

#[test]
fn the_base_tag_hashes_everything_that_goes_into_the_image() {
    let files = vec![
        b"FROM x\n".to_vec(),
        b"#!/bin/sh\n".to_vec(),
        b"wrapper".to_vec(),
        b"agentfiles".to_vec(),
    ];
    assert_eq!(
        base_tag(&spec(&[], false), &None, &files),
        "sandseal-sandbox/agent-gemini:base-04d311850060"
    );
}

#[test]
fn the_overlay_tag_is_keyed_on_the_base_id() {
    let s = spec(&["make"], false);
    assert_eq!(
        overlay_tag(&s, "sha256:abc", &Some(b"echo hi\n".to_vec())),
        "sandseal-sandbox/agent-gemini:web-dad5bc34"
    );
}

#[test]
fn digests_print_as_lower_case_hex() {
    assert_eq!(hex(&vec![0x00, 0xab, 0x0f]), "00ab0f");
}

fn base_files() -> Vec<Vec<u8>> {
    vec![
        b"FROM x\n".to_vec(),
        b"#!/bin/sh\n".to_vec(),
        b"wrapper".to_vec(),
        b"agentfiles".to_vec(),
    ]
}

#[test]
fn a_project_that_adds_nothing_runs_the_base_image() {
    let hook = Some(b"echo hi\n".to_vec());
    assert_eq!(
        ensure_images(&spec(&[], false), &None, &base_files(), &Some("sha256:abc".into()), &hook),
        "sandseal-sandbox/agent-gemini:base-04d311850060"
    );
    assert_eq!(
        ensure_images(&spec(&["make"], false), &None, &base_files(), &Some("sha256:abc".into()), &hook),
        "sandseal-sandbox/agent-gemini:web-dad5bc34"
    );
}

#[test]
fn without_a_base_id_the_overlay_is_keyed_on_the_base_tag() {
    let s = spec(&["make"], false);
    let tag = ensure_images(&s, &None, &base_files(), &None, &None);
    assert!(tag.starts_with("sandseal-sandbox/agent-gemini:web-"), "{tag}");
    assert_eq!(tag, overlay_tag(&s, "sandseal-sandbox/agent-gemini:base-04d311850060", &None));
    assert_ne!(tag, overlay_tag(&s, "sha256:abc", &None));
}

#[test]
fn an_existing_image_is_built_again_only_on_request() {
    assert!(!build_needed(&spec(&[], false), true));
    assert!(build_needed(&spec(&[], false), false));
    assert!(build_needed(&spec(&[], true), true));
}

#[test]
fn build_arguments_follow_the_spec() {
    let args = base_build_args(&spec(&[], false), "123");
    assert_eq!(
        pairs(&args),
        vec![
            ("BASE_IMAGE", "ubuntu:24.04"),
            ("UID", "1000"),
            ("GID", "1000"),
            ("AGENT_USERNAME", "agent"),
            ("AGENT_HOME", "/home/agent"),
            ("SHARED_PACKAGES", "jq curl"),
            ("APT_MIRROR", ""),
        ]
    );
    let args = overlay_build_args(&spec(&["make", "gcc"], true), "base:1", "123");
    assert_eq!(
        pairs(&args),
        vec![("BASE", "base:1"), ("EXTRA_PACKAGES", "make gcc"), ("CACHEBUST", "123")]
    );
}

#[test]
fn the_build_command_ends_with_the_context() {
    let args = vec![("A".to_string(), "1".to_string()), ("B".to_string(), "x y".to_string())];
    assert_eq!(
        build_command_args("t:1", "/d/Dockerfile", "/ctx", &args),
        vec!["build", "-t", "t:1", "-f", "/d/Dockerfile", "--build-arg", "A=1", "--build-arg", "B=x y", "/ctx"]
    );
}

#[test]
fn an_image_id_needs_a_successful_inspect() {
    assert_eq!(image_id_from_output(true, &b"sha256:abc\n".to_vec()), Some("sha256:abc".to_string()));
    assert_eq!(image_id_from_output(true, &b"  \n".to_vec()), None);
    assert_eq!(image_id_from_output(false, &b"sha256:abc\n".to_vec()), None);
}

#[test]
fn prestart_scripts_are_numbered_in_order() {
    assert_eq!(sandseal::image::prestart_file_name(0, "a.sh"), "000-a.sh");
    assert_eq!(sandseal::image::prestart_file_name(42, "b.sh"), "042-b.sh");
    assert_eq!(sandseal::image::prestart_file_name(1234, "c.sh"), "1234-c.sh");
}

#[test]
fn a_directory_hashes_its_entries_in_name_order() {
    let tree = sandseal::image::FsEntry::Dir(vec![
        ("b".to_string(), sandseal::image::FsEntry::File(b"B".to_vec())),
        (
            "a".to_string(),
            sandseal::image::FsEntry::Dir(vec![("x".to_string(), sandseal::image::FsEntry::File(b"X".to_vec()))]),
        ),
        ("c".to_string(), sandseal::image::FsEntry::Other),
    ]);
    assert_eq!(sandseal::image::tree_bytes(&tree), b"a\0x\0Xb\0Bc\0".to_vec());
    assert_eq!(sandseal::image::tree_bytes(&sandseal::image::FsEntry::File(b"raw".to_vec())), b"raw".to_vec());
    assert_eq!(sandseal::image::tree_bytes(&sandseal::image::FsEntry::Other), Vec::<u8>::new());
}

#[test]
fn a_forced_rebuild_is_stamped_with_the_time() {
    assert_eq!(sandseal::image::cachebust(Some(1_700_000_000)), "1700000000");
    assert_eq!(sandseal::image::cachebust(Some(u64::MAX)), "18446744073709551615");
    assert_eq!(sandseal::image::cachebust(None), "1");
}
