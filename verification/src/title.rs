//! Terminal-title handling for an attached sandbox.
//!
//! The agent inside the container names the window with an OSC sequence
//! (`ESC ] 0 ; text BEL`). This module rewrites the payload as it streams past, putting
//! the sandbox identity in front of whatever the agent chose, and renders the title in the
//! forms a host multiplexer forwards (tmux and screen passthrough).
use vstd::prelude::*;
use vstd::utf8::{encode_utf8, valid_utf8, decode_utf8};
use crate::text::{chars_of, push_char, string_of};

verus! {

/// Longest OSC payload held while looking for a terminator.
pub const MAX_OSC: usize = 1024;

pub const ESC: u8 = 0x1b;

pub const BEL: u8 = 0x07;

/// Host terminal multiplexer, detected from the CLI's own environment.
#[derive(Clone, Copy, Debug, PartialEq, Eq, Structural)]
pub enum Mux {
    Tmux,
    Screen,
}

/// The multiplexer named by the environment: `TMUX` set means tmux, else `STY` set means
/// screen.
pub fn detect_mux(tmux_set: bool, sty_set: bool) -> (r: Option<Mux>)
    ensures
        r == (if tmux_set {
            Some(Mux::Tmux)
        } else if sty_set {
            Some(Mux::Screen)
        } else {
            None
        }),
{
    if tmux_set {
        Some(Mux::Tmux)
    } else if sty_set {
        Some(Mux::Screen)
    } else {
        None
    }
}

/// Unicode `White_Space`, the characters `str::trim` removes.
pub open spec fn is_ws(c: char) -> bool {
    let u = c as u32;
    (0x09 <= u && u <= 0x0d) || u == 0x20 || u == 0x85 || u == 0xa0 || u == 0x1680 || (0x2000
        <= u && u <= 0x200a) || u == 0x2028 || u == 0x2029 || u == 0x202f || u == 0x205f || u
        == 0x3000
}

fn is_white(c: char) -> (r: bool)
    ensures
        r == is_ws(c),
{
    let u = c as u32;
    (0x09 <= u && u <= 0x0d) || u == 0x20 || u == 0x85 || u == 0xa0 || u == 0x1680 || (0x2000
        <= u && u <= 0x200a) || u == 0x2028 || u == 0x2029 || u == 0x202f || u == 0x205f || u
        == 0x3000
}

pub open spec fn trim_start(s: Seq<char>) -> Seq<char>
    decreases s.len(),
{
    if s.len() > 0 && is_ws(s[0]) {
        trim_start(s.drop_first())
    } else {
        s
    }
}

pub open spec fn trim_end(s: Seq<char>) -> Seq<char>
    decreases s.len(),
{
    if s.len() > 0 && is_ws(s.last()) {
        trim_end(s.drop_last())
    } else {
        s
    }
}

/// `s` without leading and trailing white space.
pub open spec fn trim_spec(s: Seq<char>) -> Seq<char> {
    trim_end(trim_start(s))
}

/// `str::trim`.
pub fn trim(s: &str) -> (r: String)
    ensures
        r@ == trim_spec(s@),
{
    let cs = chars_of(s);
    let mut i: usize = 0;
    proof {
        assert(s@.skip(0) =~= s@);
    }
    while i < cs.len() && is_white(cs[i])
        invariant
            i <= cs.len(),
            cs@ == s@,
            trim_start(s@.skip(i as int)) == trim_start(s@),
        decreases cs.len() - i,
    {
        proof {
            assert(s@.skip(i as int).drop_first() =~= s@.skip(i + 1));
        }
        i = i + 1;
    }
    proof {
        assert(trim_start(s@.skip(i as int)) == s@.skip(i as int));
        assert(s@.subrange(i as int, cs.len() as int) =~= s@.skip(i as int));
    }
    let mut j: usize = cs.len();
    while j > i && is_white(cs[j - 1])
        invariant
            i <= j <= cs.len(),
            cs@ == s@,
            trim_end(s@.subrange(i as int, j as int)) == trim_spec(s@),
        decreases j - i,
    {
        proof {
            assert(s@.subrange(i as int, j as int).drop_last() =~= s@.subrange(
                i as int,
                j - 1,
            ));
        }
        j = j - 1;
    }
    proof {
        let t = s@.subrange(i as int, j as int);
        assert(!(t.len() > 0 && is_ws(t.last())));
    }
    string_of(&cs, i, j)
}

/// `str::trim_end`.
pub fn trim_end_str(s: &str) -> (r: String)
    ensures
        r@ == trim_end(s@),
{
    let cs = chars_of(s);
    let mut j: usize = cs.len();
    proof {
        assert(s@.subrange(0, j as int) =~= s@);
    }
    while j > 0 && is_white(cs[j - 1])
        invariant
            j <= cs.len(),
            cs@ == s@,
            trim_end(s@.subrange(0, j as int)) == trim_end(s@),
        decreases j,
    {
        proof {
            assert(s@.subrange(0, j as int).drop_last() =~= s@.subrange(0, j - 1));
        }
        j = j - 1;
    }
    proof {
        let t = s@.subrange(0, j as int);
        assert(!(t.len() > 0 && is_ws(t.last())));
    }
    string_of(&cs, 0, j)
}

/// `prefix ▸ payload`, or the prefix alone when the (trimmed) payload is empty, or the
/// payload alone when the prefix is.
pub open spec fn compose_spec(prefix: Seq<char>, payload: Seq<char>) -> Seq<char> {
    let t = trim_spec(payload);
    if t.len() == 0 {
        prefix
    } else if prefix.len() == 0 {
        t
    } else {
        prefix + seq![' ', '\u{25b8}', ' '] + t
    }
}

fn compose(prefix: &str, payload: &str) -> (r: String)
    ensures
        r@ == compose_spec(prefix@, payload@),
{
    let t = trim(payload);
    if t.as_str().is_empty() {
        prefix.to_owned()
    } else if prefix.is_empty() {
        t
    } else {
        let mut r = prefix.to_owned();
        push_char(&mut r, ' ');
        push_char(&mut r, '\u{25b8}');
        push_char(&mut r, ' ');
        let ghost before = r@;
        r.append(t.as_str());
        proof {
            assert(r@ =~= prefix@ + seq![' ', '\u{25b8}', ' '] + t@);
        }
        r
    }
}

/// `ESC ] 0 ; text BEL`.
pub open spec fn osc_bytes(text: Seq<char>) -> Seq<u8> {
    seq![ESC, 0x5du8, 0x30u8, 0x3bu8] + encode_utf8(text) + seq![BEL]
}

/// `s` with every ESC byte doubled.
pub open spec fn double_esc(s: Seq<u8>) -> Seq<u8>
    decreases s.len(),
{
    if s.len() == 0 {
        s
    } else if s.last() == ESC {
        double_esc(s.drop_last()) + seq![ESC, ESC]
    } else {
        double_esc(s.drop_last()).push(s.last())
    }
}

/// The sequence wrapped for the multiplexer to forward to its own terminal.
pub open spec fn passthrough_spec(mux: Mux, s: Seq<u8>) -> Seq<u8> {
    match mux {
        Mux::Tmux => seq![ESC, 0x50u8, 0x74u8, 0x6du8, 0x75u8, 0x78u8, 0x3bu8] + double_esc(s)
            + seq![ESC, 0x5cu8],
        Mux::Screen => seq![ESC, 0x50u8] + double_esc(s) + seq![ESC, 0x5cu8],
    }
}

/// The bytes that set the window title to `payload` behind `prefix`, in every form the
/// host terminal may listen to.
pub open spec fn render_spec(prefix: Seq<char>, mux: Option<Mux>, payload: Seq<char>) -> Seq<u8> {
    let osc = osc_bytes(compose_spec(prefix, payload));
    match mux {
        Some(m) => osc + passthrough_spec(m, osc),
        None => osc,
    }
}

fn extend_bytes(out: &mut Vec<u8>, src: &[u8])
    ensures
        final(out)@ == old(out)@ + src@,
{
    let mut i: usize = 0;
    while i < src.len()
        invariant
            i <= src.len(),
            out@ == old(out)@ + src@.take(i as int),
        decreases src.len() - i,
    {
        out.push(src[i]);
        proof {
            assert(src@.take(i + 1) =~= src@.take(i as int).push(src@[i as int]));
        }
        i = i + 1;
    }
    proof {
        assert(src@.take(i as int) =~= src@);
    }
}

fn passthrough(mux: Mux, s: &Vec<u8>) -> (r: Vec<u8>)
    ensures
        r@ == passthrough_spec(mux, s@),
{
    let mut r: Vec<u8> = Vec::new();
    r.push(ESC);
    r.push(0x50);
    match mux {
        Mux::Tmux => {
            r.push(0x74);
            r.push(0x6d);
            r.push(0x75);
            r.push(0x78);
            r.push(0x3b);
        },
        Mux::Screen => {},
    }
    let ghost head = r@;
    let mut i: usize = 0;
    while i < s.len()
        invariant
            i <= s.len(),
            r@ == head + double_esc(s@.take(i as int)),
        decreases s.len() - i,
    {
        proof {
            assert(s@.take(i + 1).drop_last() =~= s@.take(i as int));
            assert(s@.take(i + 1).last() == s@[i as int]);
        }
        if s[i] == ESC {
            r.push(ESC);
            r.push(ESC);
            proof {
                assert(r@ =~= head + double_esc(s@.take(i + 1)));
            }
        } else {
            r.push(s[i]);
            proof {
                assert(r@ =~= head + double_esc(s@.take(i + 1)));
            }
        }
        i = i + 1;
    }
    r.push(ESC);
    r.push(0x5c);
    proof {
        assert(s@.take(i as int) =~= s@);
        match mux {
            Mux::Tmux => {
                assert(r@ =~= passthrough_spec(mux, s@));
            },
            Mux::Screen => {
                assert(r@ =~= passthrough_spec(mux, s@));
            },
        }
    }
    r
}

/// Renders a window title in every form the host terminal might listen to.
pub struct TitleWriter {
    /// Sandbox identity, prepended to whatever the agent sets.
    pub prefix: String,
    /// Host multiplexer detected from the CLI's own environment.
    pub mux: Option<Mux>,
}

impl TitleWriter {
    pub fn new(prefix: String, mux: Option<Mux>) -> (r: TitleWriter)
        ensures
            r.prefix@ == prefix@,
            r.mux == mux,
    {
        TitleWriter { prefix, mux }
    }

    /// The full byte sequence that sets the window title to `payload`, prefixed.
    pub fn render(&self, payload: &str) -> (r: Vec<u8>)
        ensures
            r@ == render_spec(self.prefix@, self.mux, payload@),
    {
        let text = compose(self.prefix.as_str(), payload);
        let mut osc: Vec<u8> = Vec::new();
        osc.push(ESC);
        osc.push(0x5d);
        osc.push(0x30);
        osc.push(0x3b);
        extend_bytes(&mut osc, text.as_str().as_bytes());
        osc.push(BEL);
        proof {
            assert(osc@ =~= osc_bytes(compose_spec(self.prefix@, payload@)));
        }
        match self.mux {
            Some(m) => {
                let wrapped = passthrough(m, &osc);
                let mut out = osc;
                let ghost o = out@;
                extend_bytes(&mut out, wrapped.as_slice());
                out
            },
            None => osc,
        }
    }
}


/// `std::str::from_utf8`: the text of `bytes` when they are valid UTF-8.
#[verifier::external_body]
fn utf8_text(bytes: &[u8]) -> (r: Option<&str>)
    ensures
        r is Some <==> valid_utf8(bytes@),
        r matches Some(s) ==> s@ == decode_utf8(bytes@),
{
    std::str::from_utf8(bytes).ok()
}

/// The body of an OSC sequence between `ESC ]` and its terminator (`BEL`, else `ESC \`).
pub open spec fn osc_body(seq: Seq<u8>) -> Option<Seq<u8>> {
    if seq.len() >= 2 && seq[0] == ESC && seq[1] == 0x5du8 {
        let b = seq.skip(2);
        if b.len() >= 1 && b.last() == BEL {
            Some(b.drop_last())
        } else if b.len() >= 2 && b[b.len() - 2] == ESC && b.last() == 0x5cu8 {
            Some(b.take(b.len() - 2))
        } else {
            None
        }
    } else {
        None
    }
}

/// The text of an OSC that sets the window title (code `0` or `2`, then `;`, then valid
/// UTF-8), or `None` for any other sequence.
pub open spec fn title_payload_spec(seq: Seq<u8>) -> Option<Seq<char>> {
    match osc_body(seq) {
        Some(b) => if b.len() >= 2 && (b[0] == 0x30u8 || b[0] == 0x32u8) && b[1] == 0x3bu8
            && valid_utf8(b.skip(2)) {
            Some(decode_utf8(b.skip(2)))
        } else {
            None
        },
        None => None,
    }
}

fn title_payload(seq: &Vec<u8>) -> (r: Option<&str>)
    ensures
        r is Some <==> title_payload_spec(seq@) is Some,
        r matches Some(t) ==> title_payload_spec(seq@) == Some(t@),
{
    let n = seq.len();
    if n < 2 || seq[0] != ESC || seq[1] != 0x5d {
        return None;
    }
    let end: usize;
    if n >= 3 && seq[n - 1] == BEL {
        end = n - 1;
    } else if n >= 4 && seq[n - 2] == ESC && seq[n - 1] == 0x5c {
        end = n - 2;
    } else {
        return None;
    }
    proof {
        let b = seq@.skip(2);
        assert(osc_body(seq@) == Some(seq@.subrange(2, end as int)));
    }
    if end < 4 || (seq[2] != 0x30 && seq[2] != 0x32) || seq[3] != 0x3b {
        return None;
    }
    let text = utf8_text(&seq.as_slice()[4..end]);
    proof {
        assert(seq@.subrange(2, end as int).skip(2) =~= seq@.subrange(4, end as int));
    }
    text
}

/// Where the filter stands in the stream.
#[derive(Clone, Copy, Debug, PartialEq, Eq, Structural)]
pub enum State {
    /// Copying bytes through untouched.
    Passthrough,
    /// Saw ESC, waiting to find out whether an OSC follows.
    Esc,
    /// Inside `ESC ]`, collecting the payload up to its terminator.
    Osc,
    /// Inside an OSC and saw ESC, which may begin the `ESC \` terminator.
    OscEsc,
}

/// What a complete OSC turns into: its rendering behind the prefix when it names the
/// window, the bytes as they came otherwise.
pub open spec fn emit_spec(prefix: Seq<char>, mux: Option<Mux>, seq: Seq<u8>) -> Seq<u8> {
    match title_payload_spec(seq) {
        Some(t) => render_spec(prefix, mux, t),
        None => seq,
    }
}

/// One byte through the filter: the new state, the held-back bytes, and the bytes released.
pub open spec fn step_spec(
    prefix: Seq<char>,
    mux: Option<Mux>,
    st: State,
    pending: Seq<u8>,
    b: u8,
) -> (State, Seq<u8>, Seq<u8>) {
    let p = pending.push(b);
    match st {
        State::Passthrough => if b == ESC {
            (State::Esc, p, Seq::empty())
        } else {
            (State::Passthrough, pending, seq![b])
        },
        State::Esc => if b == 0x5du8 {
            (State::Osc, p, Seq::empty())
        } else {
            (State::Passthrough, Seq::empty(), p)
        },
        State::Osc => if b == BEL {
            (State::Passthrough, Seq::empty(), emit_spec(prefix, mux, p))
        } else if b == ESC {
            (State::OscEsc, p, Seq::empty())
        } else if p.len() > MAX_OSC {
            (State::Passthrough, Seq::empty(), p)
        } else {
            (State::Osc, p, Seq::empty())
        },
        State::OscEsc => if b == 0x5cu8 {
            (State::Passthrough, Seq::empty(), emit_spec(prefix, mux, p))
        } else {
            (State::Passthrough, Seq::empty(), p)
        },
    }
}

/// A run of input through the filter: the final state, the held-back bytes, and all the
/// bytes released, in order.
pub open spec fn feed_spec(
    prefix: Seq<char>,
    mux: Option<Mux>,
    st: State,
    pending: Seq<u8>,
    input: Seq<u8>,
) -> (State, Seq<u8>, Seq<u8>)
    decreases input.len(),
{
    if input.len() == 0 {
        (st, pending, Seq::empty())
    } else {
        let r = feed_spec(prefix, mux, st, pending, input.drop_last());
        let s = step_spec(prefix, mux, r.0, r.1, input.last());
        (s.0, s.1, r.2 + s.2)
    }
}

/// What the filter holds back in each state: nothing while copying through; the ESC alone
/// after an ESC; an `ESC ]` sequence of bounded length inside an OSC.
pub open spec fn pending_wf(st: State, pending: Seq<u8>) -> bool {
    match st {
        State::Passthrough => pending.len() == 0,
        State::Esc => pending.len() == 1 && pending[0] == ESC,
        State::Osc => pending.len() >= 2 && pending[0] == ESC && pending[1] == 0x5du8
            && pending.len() <= MAX_OSC,
        State::OscEsc => pending.len() >= 3 && pending[0] == ESC && pending[1] == 0x5du8
            && pending.last() == ESC && pending.len() <= MAX_OSC + 1,
    }
}

/// Streaming rewriter for window-title sequences in the attached output.
///
/// Everything that is not a complete OSC 0/2 sequence is forwarded byte for byte,
/// including sequences split across reads and anything that overruns [`MAX_OSC`].
pub struct TitleFilter {
    writer: TitleWriter,
    state: State,
    /// Bytes of the sequence being examined, held back until it resolves.
    pending: Vec<u8>,
}

impl TitleFilter {
    pub closed spec fn prefix_view(&self) -> Seq<char> {
        self.writer.prefix@
    }

    pub closed spec fn mux_view(&self) -> Option<Mux> {
        self.writer.mux
    }

    pub closed spec fn state_view(&self) -> State {
        self.state
    }

    pub closed spec fn pending_view(&self) -> Seq<u8> {
        self.pending@
    }

    /// The filter's invariant: the held-back bytes fit the state.
    pub open spec fn wf(&self) -> bool {
        pending_wf(self.state_view(), self.pending_view())
    }

    pub fn new(writer: TitleWriter) -> (r: TitleFilter)
        ensures
            r.prefix_view() == writer.prefix@,
            r.mux_view() == writer.mux,
            r.state_view() == State::Passthrough,
            r.pending_view() == Seq::<u8>::empty(),
            r.wf(),
    {
        TitleFilter { writer, state: State::Passthrough, pending: Vec::new() }
    }

    /// Where the filter stands.
    pub fn state(&self) -> (r: State)
        ensures
            r == self.state_view(),
    {
        self.state
    }

    /// Resolve a complete OSC: rewrite it if it names the window, forward it if not.
    fn emit(&mut self, out: &mut Vec<u8>)
        ensures
            final(out)@ == old(out)@ + emit_spec(old(self).writer.prefix@, old(self).writer.mux, old(self).pending@),
            final(self).pending@ == Seq::<u8>::empty(),
            final(self).state == State::Passthrough,
            final(self).writer == old(self).writer,
    {
        let mut seq: Vec<u8> = Vec::new();
        std::mem::swap(&mut seq, &mut self.pending);
        self.state = State::Passthrough;
        match title_payload(&seq) {
            Some(payload) => {
                let r = self.writer.render(payload);
                extend_bytes(out, r.as_slice());
            },
            None => {
                extend_bytes(out, seq.as_slice());
            },
        }
    }

    fn step(&mut self, byte: u8, out: &mut Vec<u8>)
        ensures
            ({
                let s = step_spec(old(self).writer.prefix@, old(self).writer.mux, old(self).state, old(self).pending@, byte);
                &&& final(self).state == s.0
                &&& final(self).pending@ == s.1
                &&& final(out)@ == old(out)@ + s.2
            }),
            final(self).writer == old(self).writer,
    {
        match self.state {
            State::Passthrough => {
                if byte == ESC {
                    self.state = State::Esc;
                    self.pending.push(byte);
                } else {
                    out.push(byte);
                }
            },
            State::Esc => {
                self.pending.push(byte);
                if byte == 0x5d {
                    self.state = State::Osc;
                } else {
                    out.append(&mut self.pending);
                    self.state = State::Passthrough;
                }
            },
            State::Osc => {
                if byte == BEL {
                    self.pending.push(byte);
                    self.emit(out);
                } else if byte == ESC {
                    self.pending.push(byte);
                    self.state = State::OscEsc;
                } else {
                    self.pending.push(byte);
                    if self.pending.len() > MAX_OSC {
                        out.append(&mut self.pending);
                        self.state = State::Passthrough;
                    }
                }
            },
            State::OscEsc => {
                self.pending.push(byte);
                if byte == 0x5c {
                    self.emit(out);
                } else {
                    out.append(&mut self.pending);
                    self.state = State::Passthrough;
                }
            },
        }
    }

    /// Feeds one read of the attached stream; returns what should reach the terminal.
    pub fn feed(&mut self, input: &[u8]) -> (out: Vec<u8>)
        ensures
            ({
                let r = feed_spec(old(self).prefix_view(), old(self).mux_view(), old(self).state_view(), old(self).pending_view(), input@);
                &&& final(self).state_view() == r.0
                &&& final(self).pending_view() == r.1
                &&& out@ == r.2
            }),
            final(self).prefix_view() == old(self).prefix_view(),
            final(self).mux_view() == old(self).mux_view(),
            old(self).wf() ==> final(self).wf(),
    {
        let mut out: Vec<u8> = Vec::new();
        let mut i: usize = 0;
        let ghost w = self.writer;
        let ghost st0 = self.state;
        let ghost p0 = self.pending@;
        while i < input.len()
            invariant
                i <= input.len(),
                self.writer == w,
                ({
                    let r = feed_spec(w.prefix@, w.mux, st0, p0, input@.take(i as int));
                    &&& self.state == r.0
                    &&& self.pending@ == r.1
                    &&& out@ == r.2
                }),
                pending_wf(st0, p0) ==> pending_wf(self.state, self.pending@),
            decreases input.len() - i,
        {
            proof {
                assert(input@.take(i + 1).drop_last() =~= input@.take(i as int));
                assert(input@.take(i + 1).last() == input@[i as int]);
                if pending_wf(self.state, self.pending@) {
                    lemma_step_wf(w.prefix@, w.mux, self.state, self.pending@, input@[i as int]);
                }
            }
            self.step(input[i], &mut out);
            i = i + 1;
        }
        proof {
            assert(input@.take(i as int) =~= input@);
        }
        out
    }

    /// Releases any half-read sequence verbatim and starts over.
    pub fn flush(&mut self) -> (r: Vec<u8>)
        ensures
            r@ == old(self).pending_view(),
            final(self).pending_view() == Seq::<u8>::empty(),
            final(self).state_view() == State::Passthrough,
            final(self).prefix_view() == old(self).prefix_view(),
            final(self).mux_view() == old(self).mux_view(),
            final(self).wf(),
    {
        self.state = State::Passthrough;
        let mut held: Vec<u8> = Vec::new();
        std::mem::swap(&mut held, &mut self.pending);
        held
    }
}

proof fn lemma_step_wf(prefix: Seq<char>, mux: Option<Mux>, st: State, pending: Seq<u8>, b: u8)
    requires
        pending_wf(st, pending),
    ensures
        ({
            let s = step_spec(prefix, mux, st, pending, b);
            pending_wf(s.0, s.1)
        }),
{
    let p = pending.push(b);
    match st {
        State::Esc => {
            assert(pending[0] == ESC);
            assert(p.len() == 2);
            assert(p[0] == pending[0]);
            assert(p[1] == b);
        },
        State::Osc => {
            assert(p[0] == ESC && p[1] == 0x5du8);
        },
        _ => {},
    }
}

/// Law: bytes with no ESC among them pass through the idle filter unchanged, and leave it
/// idle.
pub proof fn law_plain_bytes_pass_through(prefix: Seq<char>, mux: Option<Mux>, input: Seq<u8>)
    requires
        !input.contains(ESC),
    ensures
        feed_spec(prefix, mux, State::Passthrough, Seq::empty(), input) == (
            State::Passthrough,
            Seq::<u8>::empty(),
            input,
        ),
    decreases input.len(),
{
    if input.len() > 0 {
        let t = input.drop_last();
        assert(!t.contains(ESC)) by {
            if t.contains(ESC) {
                let i = choose|i: int| 0 <= i < t.len() && t[i] == ESC;
                assert(input[i] == ESC);
            }
        }
        law_plain_bytes_pass_through(prefix, mux, t);
        assert(input[input.len() - 1] != ESC);
        assert(t.push(input.last()) =~= input);
    }
}

/// Law: how the stream is cut into reads does not matter. Feeding `a` and then `b` ends
/// in the state, and releases the bytes, that feeding `a + b` at once does.
pub proof fn law_split_reads(
    prefix: Seq<char>,
    mux: Option<Mux>,
    st: State,
    pending: Seq<u8>,
    a: Seq<u8>,
    b: Seq<u8>,
)
    ensures
        ({
            let ra = feed_spec(prefix, mux, st, pending, a);
            let rb = feed_spec(prefix, mux, ra.0, ra.1, b);
            let rab = feed_spec(prefix, mux, st, pending, a + b);
            rab == (rb.0, rb.1, ra.2 + rb.2)
        }),
    decreases b.len(),
{
    if b.len() == 0 {
        assert(a + b =~= a);
        let ra = feed_spec(prefix, mux, st, pending, a);
        assert(ra.2 + Seq::<u8>::empty() =~= ra.2);
    } else {
        law_split_reads(prefix, mux, st, pending, a, b.drop_last());
        assert((a + b).drop_last() =~= a + b.drop_last());
        assert((a + b).last() == b.last());
        let ra = feed_spec(prefix, mux, st, pending, a);
        let rb0 = feed_spec(prefix, mux, ra.0, ra.1, b.drop_last());
        let s = step_spec(prefix, mux, rb0.0, rb0.1, b.last());
        assert(ra.2 + rb0.2 + s.2 =~= ra.2 + (rb0.2 + s.2));
    }
}

/// Law: what is held back never grows past one OSC's worth, whatever the input.
pub proof fn law_bounded_holdback(
    prefix: Seq<char>,
    mux: Option<Mux>,
    st: State,
    pending: Seq<u8>,
    input: Seq<u8>,
)
    requires
        pending_wf(st, pending),
    ensures
        pending_wf(
            feed_spec(prefix, mux, st, pending, input).0,
            feed_spec(prefix, mux, st, pending, input).1,
        ),
        feed_spec(prefix, mux, st, pending, input).1.len() <= MAX_OSC + 1,
    decreases input.len(),
{
    if input.len() > 0 {
        law_bounded_holdback(prefix, mux, st, pending, input.drop_last());
        let r = feed_spec(prefix, mux, st, pending, input.drop_last());
        lemma_step_wf(prefix, mux, r.0, r.1, input.last());
    }
}

proof fn lemma_step_keeps_bytes(prefix: Seq<char>, mux: Option<Mux>, st: State, pending: Seq<u8>, b: u8)
    requires
        pending_wf(st, pending),
        b != BEL,
        b != 0x5cu8,
    ensures
        ({
            let s = step_spec(prefix, mux, st, pending, b);
            s.2 + s.1 == pending.push(b)
        }),
{
    let s = step_spec(prefix, mux, st, pending, b);
    match st {
        State::Passthrough => {
            if b != ESC {
                assert(pending =~= Seq::<u8>::empty());
                assert(s.2 + s.1 =~= pending.push(b));
            } else {
                assert(s.2 + s.1 =~= pending.push(b));
            }
        },
        _ => {
            assert(s.2 + s.1 =~= pending.push(b));
        },
    }
}

/// Law: where the input holds no BEL and no backslash, so that no window-title sequence
/// can end in it, the filter loses, adds and reorders no byte: what a run of reads releases,
/// followed by what is still held back (which `flush` releases), is what was held back
/// before followed by the input. Applied read after read, this holds however the input is
/// cut into reads; from a new filter, the reads' outputs and the final `flush` give back
/// the input itself.
pub proof fn law_no_byte_lost(prefix: Seq<char>, mux: Option<Mux>, st: State, pending: Seq<u8>, input: Seq<u8>)
    requires
        pending_wf(st, pending),
        !input.contains(BEL),
        !input.contains(0x5cu8),
    ensures
        ({
            let r = feed_spec(prefix, mux, st, pending, input);
            r.2 + r.1 == pending + input
        }),
    decreases input.len(),
{
    if input.len() == 0 {
        assert(pending + input =~= pending);
        assert(Seq::<u8>::empty() + pending =~= pending);
    } else {
        let t = input.drop_last();
        assert(!t.contains(BEL)) by {
            if t.contains(BEL) {
                let i = choose|i: int| 0 <= i < t.len() && t[i] == BEL;
                assert(input[i] == BEL);
            }
        }
        assert(!t.contains(0x5cu8)) by {
            if t.contains(0x5cu8) {
                let i = choose|i: int| 0 <= i < t.len() && t[i] == 0x5cu8;
                assert(input[i] == 0x5cu8);
            }
        }
        assert(input[input.len() - 1] != BEL);
        assert(input[input.len() - 1] != 0x5cu8);
        law_no_byte_lost(prefix, mux, st, pending, t);
        law_bounded_holdback(prefix, mux, st, pending, t);
        let r = feed_spec(prefix, mux, st, pending, t);
        lemma_step_keeps_bytes(prefix, mux, r.0, r.1, input.last());
        let s = step_spec(prefix, mux, r.0, r.1, input.last());
        assert(r.2 + s.2 + s.1 =~= r.2 + (s.2 + s.1));
        assert(r.2 + r.1.push(input.last()) =~= (r.2 + r.1).push(input.last()));
        assert(t.push(input.last()) =~= input);
        assert((pending + t).push(input.last()) =~= pending + input);
    }
}

/// Reads fed one after another: the final state, the held-back bytes, and what all the
/// reads released, in order.
pub open spec fn feed_reads(
    prefix: Seq<char>,
    mux: Option<Mux>,
    st: State,
    pending: Seq<u8>,
    reads: Seq<Seq<u8>>,
) -> (State, Seq<u8>, Seq<u8>)
    decreases reads.len(),
{
    if reads.len() == 0 {
        (st, pending, Seq::empty())
    } else {
        let r = feed_reads(prefix, mux, st, pending, reads.drop_last());
        let s = feed_spec(prefix, mux, r.0, r.1, reads.last());
        (s.0, s.1, r.2 + s.2)
    }
}

/// Law: however many reads the input comes in, none holding a BEL or a backslash, what
/// they release followed by what is still held back (which `flush` releases) is what was
/// held back before followed by the reads end to end. From a new filter, the reads'
/// outputs and the final `flush` give back the input itself.
pub proof fn law_no_byte_lost_over_reads(
    prefix: Seq<char>,
    mux: Option<Mux>,
    st: State,
    pending: Seq<u8>,
    reads: Seq<Seq<u8>>,
)
    requires
        pending_wf(st, pending),
        forall|i: int| 0 <= i < reads.len() ==> !(#[trigger] reads[i]).contains(BEL) && !reads[i].contains(0x5cu8),
    ensures
        ({
            let r = feed_reads(prefix, mux, st, pending, reads);
            &&& r.2 + r.1 == pending + crate::text::concat_all_bytes(reads)
            &&& pending_wf(r.0, r.1)
        }),
    decreases reads.len(),
{
    if reads.len() == 0 {
        assert(pending + Seq::<u8>::empty() =~= pending);
        assert(Seq::<u8>::empty() + pending =~= pending);
    } else {
        let d = reads.drop_last();
        assert forall|i: int| 0 <= i < d.len() implies !(#[trigger] d[i]).contains(BEL) && !d[i].contains(0x5cu8) by {
            assert(d[i] == reads[i]);
        }
        law_no_byte_lost_over_reads(prefix, mux, st, pending, d);
        let r = feed_reads(prefix, mux, st, pending, d);
        let last = reads.last();
        assert(last == reads[reads.len() - 1]);
        law_no_byte_lost(prefix, mux, r.0, r.1, last);
        law_bounded_holdback(prefix, mux, r.0, r.1, last);
        let s = feed_spec(prefix, mux, r.0, r.1, last);
        assert(r.2 + s.2 + s.1 =~= r.2 + (s.2 + s.1));
        assert(r.2 + (r.1 + last) =~= (r.2 + r.1) + last);
        assert(pending + crate::text::concat_all_bytes(d) + last =~= pending + crate::text::concat_all_bytes(reads));
    }
}

} // verus!
