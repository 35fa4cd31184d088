use sandseal::clipboard::{
    answer_step, read_response, wsl_image, wsl_text, AnswerStep,
    detect_platform, host_socket, parse_args, parse_target_lines, targets_response, Header,
    Invocation, Platform, Request, Response, Target,
};

fn args(s: &str) -> Vec<String> {
    s.split_whitespace().map(String::from).collect()
}

#[test]
fn the_calls_claude_code_makes_are_understood() {
    assert_eq!(
        parse_args(&args("-selection clipboard -t TARGETS -o")),
        Invocation::Request(Request::Targets)
    );
    assert_eq!(
        parse_args(&args("-selection clipboard -t image/png -o")),
        Invocation::Request(Request::Get(Target::Image))
    );
    assert_eq!(
        parse_args(&args("-selection clipboard -t text/plain -o")),
        Invocation::Request(Request::Get(Target::Text))
    );
}

#[test]
fn a_bare_output_request_means_text() {
    assert_eq!(
        parse_args(&args("-selection clipboard -o")),
        Invocation::Request(Request::Get(Target::Text))
    );
}

#[test]
fn unserved_targets_fail_instead_of_returning_the_wrong_bytes() {
    assert!(matches!(
        parse_args(&args("-selection clipboard -t image/bmp -o")),
        Invocation::Unsupported(_)
    ));
}

#[test]
fn input_mode_is_refused() {
    assert!(matches!(parse_args(&args("-selection clipboard")), Invocation::Unsupported(_)));
    assert!(matches!(parse_args(&args("-i -selection clipboard")), Invocation::Unsupported(_)));
}

#[test]
fn x11_target_lists_map_onto_the_served_kinds() {
    let listing = "TARGETS\nTIMESTAMP\nimage/png\nimage/bmp\n";
    assert_eq!(parse_target_lines(listing), vec![Target::Image]);

    let listing = "UTF8_STRING\nSTRING\ntext/plain;charset=utf-8\n";
    assert_eq!(parse_target_lines(listing), vec![Target::Text]);

    assert_eq!(parse_target_lines("TARGETS\nimage/jpeg\n"), Vec::<Target>::new());
}

#[test]
fn the_powershell_probe_output_parses_with_windows_line_endings() {
    assert_eq!(
        parse_target_lines("image/png\r\ntext/plain\r\n"),
        vec![Target::Image, Target::Text]
    );
}

#[test]
fn requests_round_trip() {
    for request in [Request::Targets, Request::Get(Target::Image), Request::Get(Target::Text)] {
        assert_eq!(Request::parse(&request.encode()), Some(request));
    }
}

#[test]
fn unknown_targets_are_rejected_not_guessed() {
    assert_eq!(Request::parse("get image/bmp"), None);
    assert_eq!(Request::parse("get"), None);
    assert_eq!(Request::parse(""), None);
}

#[test]
fn responses_carry_their_length() {
    let encoded = Response::Bytes(b"\x89PNG".to_vec()).encode();
    assert_eq!(&encoded[..5], b"ok 4\n");
    assert_eq!(&encoded[5..], b"\x89PNG");
    assert_eq!(Response::parse_header("ok 4\n"), Some(Header::Bytes(4)));
    assert_eq!(Response::parse_header("none\n"), Some(Header::Nothing));
    assert_eq!(Response::parse_header("error boom\n"), Some(Header::Error("boom".into())));
    assert_eq!(Response::parse_header("ok many\n"), None);
}

#[test]
fn error_messages_stay_on_one_line() {
    let encoded = Response::Error("first\nsecond".into()).encode();
    assert_eq!(encoded, b"error first second\n");
}

#[test]
fn mime_names_and_parse_agree() {
    assert_eq!(Target::Image.mime(), "image/png");
    assert_eq!(Target::Text.mime(), "text/plain");
    assert_eq!(Target::parse("image/png"), Some(Target::Image));
    assert_eq!(Target::parse("text/plain"), Some(Target::Text));
    assert_eq!(Target::parse("image/bmp"), None);
}

#[test]
fn the_host_socket_sits_in_the_instance_tmp_dir() {
    assert_eq!(host_socket("/tmp/inst"), "/tmp/inst/clipboard.sock");
}

#[test]
fn an_empty_clipboard_lists_nothing() {
    assert_eq!(targets_response(&vec![]), Response::Nothing);
    assert_eq!(
        targets_response(&vec![Target::Image, Target::Text]),
        Response::Bytes(b"image/png\ntext/plain\n".to_vec())
    );
}

#[test]
fn the_platform_comes_from_the_os_and_the_kernel() {
    assert_eq!(detect_platform(true, false, ""), Some(Platform::MacOs));
    assert_eq!(detect_platform(false, false, ""), None);
    assert_eq!(
        detect_platform(false, true, "Linux version 5.15.90.1-Microsoft-standard-WSL2"),
        Some(Platform::Wsl)
    );
    assert_eq!(detect_platform(false, true, "Linux version 6.8.0-generic"), Some(Platform::Linux));
}

/// A clipboard holding exactly what the test put there.
struct Fixed {
    image: Option<Vec<u8>>,
    text: Option<String>,
}

impl Fixed {
    fn targets(&self) -> Vec<Target> {
        let mut targets = Vec::new();
        if self.image.is_some() {
            targets.push(Target::Image);
        }
        if self.text.is_some() {
            targets.push(Target::Text);
        }
        targets
    }

    fn read(&self, target: Target) -> Result<Option<Vec<u8>>, String> {
        Ok(match target {
            Target::Image => self.image.clone(),
            Target::Text => self.text.as_ref().map(|t| t.clone().into_bytes()),
        })
    }
}

fn answer(line: &str, source: &Fixed) -> Response {
    match answer_step(line) {
        AnswerStep::Reply(r) => r,
        AnswerStep::ListTargets => targets_response(&source.targets()),
        AnswerStep::Read(t) => read_response(source.read(t)),
    }
}

#[test]
fn targets_list_what_the_clipboard_holds() {
    let both = Fixed { image: Some(vec![1]), text: Some("hi".into()) };
    assert_eq!(answer("targets\n", &both), Response::Bytes(b"image/png\ntext/plain\n".to_vec()));
    let empty = Fixed { image: None, text: None };
    assert_eq!(answer("targets\n", &empty), Response::Nothing);
}

#[test]
fn a_missing_kind_is_none_not_an_error() {
    let text_only = Fixed { image: None, text: Some("hi".into()) };
    assert_eq!(answer("get image/png\n", &text_only), Response::Nothing);
    assert_eq!(answer("get text/plain\n", &text_only), Response::Bytes(b"hi".to_vec()));
}

#[test]
fn garbage_gets_an_error_line() {
    let empty = Fixed { image: None, text: None };
    assert_eq!(answer("PUT stuff\n", &empty), Response::Error("unknown request: PUT stuff".into()));
    assert_eq!(read_response(Err("xclip failed".into())), Response::Error("xclip failed".into()));
}

#[test]
fn windows_clipboard_output_is_decoded() {
    assert_eq!(wsl_image(b"iVBO\r\nRw==\r\n".to_vec()), Ok(Some(vec![0x89, 0x50, 0x4e, 0x47])));
    assert_eq!(wsl_image(b"  \r\n".to_vec()), Ok(None));
    assert!(wsl_image(b"!!".to_vec()).is_err());
    assert_eq!(wsl_text(b"a\r\nb".to_vec()), Some(b"a\nb".to_vec()));
    assert_eq!(wsl_text(Vec::new()), None);
}

#[test]
fn the_running_display_server_is_asked_first() {
    let list = sandseal::clipboard::linux_list_commands(true);
    assert_eq!(list[0], vec!["wl-paste", "--list-types"]);
    assert_eq!(list[1], vec!["xclip", "-selection", "clipboard", "-t", "TARGETS", "-o"]);
    let read = sandseal::clipboard::linux_read_commands(Target::Text, false);
    assert_eq!(read[0], vec!["xclip", "-selection", "clipboard", "-o"]);
    assert_eq!(read[1], vec!["wl-paste", "--no-newline"]);
    let read = sandseal::clipboard::linux_read_commands(Target::Image, true);
    assert_eq!(read[0], vec!["wl-paste", "--type", "image/png"]);
}

#[test]
fn the_first_line_of_an_encoding_is_its_header() {
    let cases = vec![
        (Response::Bytes("é\nx".as_bytes().to_vec()), Header::Bytes(4)),
        (Response::Nothing, Header::Nothing),
        (Response::Error("two\nlines".into()), Header::Error("two lines".into())),
    ];
    for (r, h) in cases {
        let bytes = r.encode();
        let end = bytes.iter().position(|b| *b == b'\n').unwrap() + 1;
        let line = std::str::from_utf8(&bytes[..end]).unwrap();
        assert_eq!(Response::parse_header(line), Some(h));
    }
}
