use sandseal::title::{detect_mux, Mux, State, TitleFilter, TitleWriter, MAX_OSC};

fn filter(prefix: &str) -> TitleFilter {
    TitleFilter::new(TitleWriter { prefix: prefix.to_string(), mux: None })
}

#[test]
fn plain_output_passes_through_unchanged() {
    let mut f = filter("box");
    assert_eq!(f.feed(b"hello world\n"), b"hello world\n");
}

#[test]
fn title_gets_the_prefix() {
    let mut f = filter("box");
    assert_eq!(f.feed(b"\x1b]0;topic\x07"), b"\x1b]0;box \xe2\x96\xb8 topic\x07");
}

#[test]
fn empty_title_falls_back_to_the_prefix() {
    let mut f = filter("box");
    assert_eq!(f.feed(b"\x1b]0;\x07"), b"\x1b]0;box\x07");
}

#[test]
fn osc_2_is_a_title_too() {
    let mut f = filter("box");
    assert_eq!(f.feed(b"\x1b]2;topic\x07"), b"\x1b]0;box \xe2\x96\xb8 topic\x07");
}

#[test]
fn st_terminator_is_accepted() {
    let mut f = filter("box");
    assert_eq!(f.feed(b"\x1b]0;topic\x1b\\"), b"\x1b]0;box \xe2\x96\xb8 topic\x07");
}

#[test]
fn other_osc_codes_are_left_alone() {
    let mut f = filter("box");
    assert_eq!(f.feed(b"\x1b]8;;http://x\x07"), b"\x1b]8;;http://x\x07");
    assert_eq!(f.feed(b"\x1b]52;c;Zm9v\x07"), b"\x1b]52;c;Zm9v\x07");
    assert_eq!(f.feed(b"\x1b]1;icon\x07"), b"\x1b]1;icon\x07");
}

#[test]
fn ordinary_escape_sequences_are_left_alone() {
    let mut f = filter("box");
    assert_eq!(f.feed(b"\x1b[31mred\x1b[0m"), b"\x1b[31mred\x1b[0m");
    assert_eq!(f.feed(b"\x1b[?25l"), b"\x1b[?25l");
}

#[test]
fn sequence_split_across_reads_is_reassembled() {
    let mut f = filter("box");
    assert_eq!(f.feed(b"a\x1b]0;to"), b"a");
    assert_eq!(f.feed(b"pic\x07b"), b"\x1b]0;box \xe2\x96\xb8 topic\x07b");
}

#[test]
fn escape_split_across_reads_is_not_eaten() {
    let mut f = filter("box");
    assert_eq!(f.feed(b"\x1b"), b"");
    assert_eq!(f.feed(b"[0m"), b"\x1b[0m");
}

#[test]
fn an_overlong_osc_is_released_rather_than_buffered() {
    let mut f = filter("box");
    let long = [b'x'; MAX_OSC + 16];
    let mut input = b"\x1b]0;".to_vec();
    input.extend_from_slice(&long);

    let out = f.feed(&input);
    assert_eq!(out, input, "bytes must survive even when we stop tracking them");
    assert_eq!(f.state(), State::Passthrough);
}

#[test]
fn flush_releases_a_half_read_sequence() {
    let mut f = filter("box");
    assert_eq!(f.feed(b"\x1b]0;half"), b"");
    assert_eq!(f.flush(), b"\x1b]0;half");
    assert_eq!(f.flush(), b"", "flushing twice must not repeat the bytes");
}

#[test]
fn utf8_payload_survives() {
    let mut f = filter("box");
    let out = f.feed("\x1b]0;✳ oprava\x07".as_bytes());
    assert_eq!(out, "\x1b]0;box ▸ ✳ oprava\x07".as_bytes());
}

#[test]
fn an_empty_prefix_leaves_the_agent_title_alone() {
    let mut f = filter("");
    assert_eq!(f.feed(b"\x1b]0;topic\x07"), b"\x1b]0;topic\x07");
}

#[test]
fn tmux_gets_the_passthrough_copy_as_well() {
    let w = TitleWriter { prefix: "box".into(), mux: Some(Mux::Tmux) };
    let out = String::from_utf8(w.render("topic")).unwrap();
    assert_eq!(out, "\x1b]0;box ▸ topic\x07\x1bPtmux;\x1b\x1b]0;box ▸ topic\x07\x1b\\");
}

#[test]
fn screen_gets_its_own_wrapper() {
    let w = TitleWriter { prefix: "box".into(), mux: Some(Mux::Screen) };
    let out = String::from_utf8(w.render("topic")).unwrap();
    assert_eq!(out, "\x1b]0;box ▸ topic\x07\x1bP\x1b\x1b]0;box ▸ topic\x07\x1b\\");
}

#[test]
fn reading_in_pieces_gives_the_same_bytes() {
    let input = b"x\x1b]0;one\x07y\x1b[1mz\x1b]2;two\x1b\\w";
    let mut whole = filter("box");
    let expected = whole.feed(input);
    for cut in 0..input.len() {
        let mut f = filter("box");
        let mut out = f.feed(&input[..cut]);
        out.extend(f.feed(&input[cut..]));
        assert_eq!(out, expected, "cut at {cut}");
    }
}

#[test]
fn tmux_wins_over_screen() {
    assert_eq!(detect_mux(true, true), Some(Mux::Tmux));
    assert_eq!(detect_mux(false, true), Some(Mux::Screen));
    assert_eq!(detect_mux(false, false), None);
    assert_eq!(TitleWriter::new("p".into(), None).prefix, "p");
}

#[test]
fn without_bel_or_backslash_no_byte_is_lost() {
    let input: &[u8] = b"ab\x1b[1mc\x1b]0;unterminated title\x1bxy\x1b]2;more";
    for cut in 0..=input.len() {
        let mut f = filter("[s]");
        let mut out = f.feed(&input[..cut]);
        out.extend(f.feed(&input[cut..]));
        out.extend(f.flush());
        assert_eq!(out, input, "cut at {cut}");
    }
}
