use sandseal::cli::{resolve_api_url, DEFAULT_API_URL};
use sandseal::keys::compare_keys;
use sandseal::lines::{indent, join_with, lines, words};
use sandseal::protocol::{ChatRole, MessageType, TerminalResize};
use sandseal::remote::{attach_args, combine_sizes, initial_pty_size, ResizeCoordinator, SizeUpdate};

#[test]
fn message_kinds_have_fixed_bytes() {
    let bytes: Vec<u8> = [
        MessageType::TerminalData,
        MessageType::TerminalResize,
        MessageType::ChatMessage,
        MessageType::ChatResponseChunk,
        MessageType::SessionMetadata,
        MessageType::Keepalive,
        MessageType::KeyRotation,
        MessageType::SessionEnd,
    ]
    .iter()
    .map(|t| t.to_byte())
    .collect();
    assert_eq!(bytes, vec![0x01, 0x02, 0x03, 0x04, 0x05, 0x06, 0x10, 0xff]);
    assert_eq!(ChatRole::Assistant.name(), "assistant");
    let r = TerminalResize { cols: 300, rows: 40 };
    assert_eq!(r, TerminalResize { cols: 300, rows: 40 });
}

#[test]
fn the_container_is_sized_to_fit_both_viewers() {
    assert_eq!(combine_sizes(Some((40, 120)), Some((30, 200))), Some((30, 120)));
    assert_eq!(combine_sizes(None, Some((30, 200))), Some((30, 200)));
    assert_eq!(combine_sizes(None, None), None);
    let mut c = ResizeCoordinator::new();
    assert_eq!(c.update(SizeUpdate::Local(50, 100)), Some((50, 100)));
    assert_eq!(c.update(SizeUpdate::Browser(60, 80)), Some((50, 80)));
    assert_eq!(initial_pty_size(None), (24, 80));
    assert_eq!(initial_pty_size(Some((10, 20))), (10, 20));
    assert_eq!(attach_args("box"), vec!["attach", "--sig-proxy=false", "box"]);
}

#[test]
fn the_default_backend() {
    assert_eq!(resolve_api_url(None), DEFAULT_API_URL);
    assert_eq!(resolve_api_url(Some("http://localhost:3000")), "http://localhost:3000");
}

#[test]
fn text_helpers_match_std() {
    assert_eq!(lines("a\r\nb\n\nc"), vec!["a", "b", "", "c"]);
    assert_eq!(words("  a  b\tc "), vec!["a", "b", "c"]);
    assert_eq!(indent("  \tx y"), "  \t");
    assert_eq!(join_with(&vec!["a".into(), "b".into()], ", "), "a, b");
    assert!(compare_keys("a", "b") < 0);
    assert_eq!(compare_keys("b", "b"), 0);
    assert!(compare_keys("ba", "b") > 0);
}

#[test]
fn a_zero_sized_terminal_is_no_terminal() {
    assert_eq!(sandseal::remote::reported_size(24, 80), Some((24, 80)));
    assert_eq!(sandseal::remote::reported_size(0, 80), None);
    assert_eq!(sandseal::remote::reported_size(24, 0), None);
}

#[test]
fn the_installer_runs_from_standard_input() {
    assert_eq!(sandseal::update::installer_args(None), vec!["-s", "--"]);
    assert_eq!(sandseal::update::installer_args(Some("1.2.3")), vec!["-s", "--", "--version", "1.2.3"]);
}
