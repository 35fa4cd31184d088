//! Clipboard bridge: the host clipboard, served to the sandbox over a unix socket, one
//! request per connection, with an `xclip` stand-in inside the sandbox.
use vstd::prelude::*;
use vstd::utf8::decode_utf8;
use crate::path::join;
use crate::text::{
    chars_of, push_char, str_eq, starts_with, concat, views, split_on, split_spec, skip_chars,
    usize_to_string, parse_usize, parse_usize_spec, decimal, contains_str, contains_seq, lowercase,
    to_lowercase, push_string,
};
use crate::title::{trim, trim_spec};
use base64::Engine;

verus! {

/// Where the sandbox finds the socket.
pub const SOCKET_ENV: &'static str = "SANDSEAL_CLIPBOARD_SOCKET";

/// The socket's path inside the container.
pub const CONTAINER_SOCKET: &'static str = "/run/sandseal/clipboard.sock";

/// Where the `xclip` stand-in is mounted.
pub const SHIM_MOUNT: &'static str = "/usr/local/bin/xclip";

/// The stand-in's location in the assets directory.
pub const SHIM_ASSET: &'static str = "agents/clipboard/xclip";

/// The host-side socket of an instance: `<tmp_dir>/clipboard.sock`.
pub fn host_socket(tmp_dir: &str) -> (r: String)
    ensures
        r@ == crate::path::join_spec(tmp_dir@, "clipboard.sock"@),
{
    join(tmp_dir, "clipboard.sock")
}

/// What the sandbox can ask for, named by MIME type on the wire.
#[derive(Clone, Copy, Debug, PartialEq, Eq, Structural)]
pub enum Target {
    Image,
    Text,
}

/// The MIME type of a target.
pub open spec fn mime_spec(t: Target) -> Seq<char> {
    match t {
        Target::Image => "image/png"@,
        Target::Text => "text/plain"@,
    }
}

impl Target {
    pub fn mime(self) -> (r: &'static str)
        ensures
            r@ == mime_spec(self),
    {
        match self {
            Target::Image => "image/png",
            Target::Text => "text/plain",
        }
    }

    /// The target a MIME type names, if the bridge serves it.
    pub fn parse(mime: &str) -> (r: Option<Target>)
        ensures
            r == (if mime@ == "image/png"@ {
                Some(Target::Image)
            } else if mime@ == "text/plain"@ {
                Some(Target::Text)
            } else {
                None
            }),
    {
        if str_eq(mime, "image/png") {
            Some(Target::Image)
        } else if str_eq(mime, "text/plain") {
            Some(Target::Text)
        } else {
            None
        }
    }
}

/// One request per connection, one line each.
#[derive(Clone, Copy, Debug, PartialEq, Eq, Structural)]
pub enum Request {
    /// Which targets the clipboard currently offers.
    Targets,
    /// The clipboard contents as one target.
    Get(Target),
}

/// The request a line names: `targets`, or `get ` and a served MIME type; the line is
/// trimmed first.
pub open spec fn request_parse_spec(line: Seq<char>) -> Option<Request> {
    let t = trim_spec(line);
    if t == "targets"@ {
        Some(Request::Targets)
    } else if t.len() >= 4 && t.take(4) == "get "@ {
        let m = t.skip(4);
        if m == "image/png"@ {
            Some(Request::Get(Target::Image))
        } else if m == "text/plain"@ {
            Some(Request::Get(Target::Text))
        } else {
            None
        }
    } else {
        None
    }
}

/// The line that carries a request.
pub open spec fn request_encode_spec(r: Request) -> Seq<char> {
    match r {
        Request::Targets => "targets\n"@,
        Request::Get(t) => "get "@ + mime_spec(t) + "\n"@,
    }
}

impl Request {
    pub fn parse(line: &str) -> (r: Option<Request>)
        ensures
            r == request_parse_spec(line@),
    {
        let t = trim(line);
        if str_eq(t.as_str(), "targets") {
            return Some(Request::Targets);
        }
        if starts_with(t.as_str(), "get ") {
            proof {
                reveal_strlit("get ");
            }
            let m = skip_chars(t.as_str(), 4);
            match Target::parse(m.as_str()) {
                Some(target) => Some(Request::Get(target)),
                None => None,
            }
        } else {
            None
        }
    }

    pub fn encode(self) -> (r: String)
        ensures
            r@ == request_encode_spec(self),
    {
        match self {
            Request::Targets => "targets\n".to_owned(),
            Request::Get(target) => {
                let s = concat("get ", target.mime());
                concat(s.as_str(), "\n")
            },
        }
    }
}

/// A header line followed by the body: `ok <len>\n<bytes>`, `none\n`, `error <message>\n`.
#[derive(Clone, Debug, PartialEq, Eq)]
pub enum Response {
    /// The bytes asked for (`ok <len>`).
    Bytes(Vec<u8>),
    /// The clipboard holds nothing of the requested kind (`none`).
    Nothing,
    Error(String),
}

/// A decoded header line.
#[derive(Clone, Debug, PartialEq, Eq)]
pub enum Header {
    Bytes(usize),
    Nothing,
    Error(String),
}

/// The bytes of an ASCII-or-not text, encoded as UTF-8.
pub open spec fn utf8(s: Seq<char>) -> Seq<u8> {
    vstd::utf8::encode_utf8(s)
}

/// `s` with each newline turned into a space.
pub open spec fn one_line(s: Seq<char>) -> Seq<char> {
    s.map_values(|c: char| if c == '\n' {
        ' '
    } else {
        c
    })
}

/// The bytes that carry a response.
pub open spec fn response_encode_spec(r: Response) -> Seq<u8> {
    match r {
        Response::Bytes(body) => utf8("ok "@ + decimal(body@.len()) + "\n"@) + body@,
        Response::Nothing => utf8("none\n"@),
        Response::Error(m) => utf8("error "@ + one_line(m@) + "\n"@),
    }
}

/// `s` without its trailing carriage returns and newlines.
pub open spec fn strip_eol(s: Seq<char>) -> Seq<char>
    decreases s.len(),
{
    if s.len() > 0 && (s.last() == '\r' || s.last() == '\n') {
        strip_eol(s.drop_last())
    } else {
        s
    }
}

/// The header a line (end-of-line characters dropped) decodes to.
pub enum HeaderView {
    Bytes(usize),
    Nothing,
    Error(Seq<char>),
}

pub open spec fn header_view(h: Header) -> HeaderView {
    match h {
        Header::Bytes(n) => HeaderView::Bytes(n),
        Header::Nothing => HeaderView::Nothing,
        Header::Error(m) => HeaderView::Error(m@),
    }
}

pub open spec fn parse_header_spec(line: Seq<char>) -> Option<HeaderView> {
    let l = strip_eol(line);
    if l == "none"@ {
        Some(HeaderView::Nothing)
    } else if l.len() >= 3 && l.take(3) == "ok "@ {
        match parse_usize_spec(l.skip(3)) {
            Some(n) => Some(HeaderView::Bytes(n)),
            None => None,
        }
    } else if l.len() >= 6 && l.take(6) == "error "@ {
        Some(HeaderView::Error(l.skip(6)))
    } else {
        None
    }
}

fn strip_eol_exec(s: &str) -> (r: String)
    ensures
        r@ == strip_eol(s@),
{
    let cs = chars_of(s);
    let mut j = cs.len();
    proof {
        assert(s@.take(j as int) =~= s@);
    }
    while j > 0 && (cs[j - 1] == '\r' || cs[j - 1] == '\n')
        invariant
            j <= cs.len(),
            cs@ == s@,
            strip_eol(s@.take(j as int)) == strip_eol(s@),
        decreases j,
    {
        proof {
            assert(s@.take(j as int).drop_last() =~= s@.take(j - 1));
        }
        j = j - 1;
    }
    proof {
        assert(s@.take(j as int) =~= cs@.subrange(0, j as int));
    }
    crate::text::string_of(&cs, 0, j)
}

fn string_bytes(s: &str) -> (r: Vec<u8>)
    ensures
        r@ == utf8(s@),
{
    let b = s.as_bytes();
    let mut out: Vec<u8> = Vec::new();
    let mut i: usize = 0;
    while i < b.len()
        invariant
            i <= b.len(),
            b@ == utf8(s@),
            out@ == b@.take(i as int),
        decreases b.len() - i,
    {
        out.push(b[i]);
        proof {
            assert(b@.take(i + 1) =~= b@.take(i as int).push(b@[i as int]));
        }
        i = i + 1;
    }
    proof {
        assert(b@.take(i as int) =~= b@);
    }
    out
}

fn replace_newlines(s: &str) -> (r: String)
    ensures
        r@ == one_line(s@),
{
    let cs = chars_of(s);
    let mut out = String::new();
    let mut i: usize = 0;
    while i < cs.len()
        invariant
            i <= cs.len(),
            cs@ == s@,
            out@ == one_line(s@.take(i as int)),
        decreases cs.len() - i,
    {
        let c = if cs[i] == '\n' {
            ' '
        } else {
            cs[i]
        };
        push_char(&mut out, c);
        proof {
            assert(one_line(s@.take(i + 1)) =~= one_line(s@.take(i as int)).push(c));
        }
        i = i + 1;
    }
    proof {
        assert(s@.take(i as int) =~= s@);
    }
    out
}

impl Response {
    pub fn encode(&self) -> (r: Vec<u8>)
        ensures
            r@ == response_encode_spec(*self),
    {
        match self {
            Response::Bytes(body) => {
                let head = concat("ok ", usize_to_string(body.len()).as_str());
                let head = concat(head.as_str(), "\n");
                let mut out = string_bytes(head.as_str());
                let ghost h = out@;
                let mut i: usize = 0;
                while i < body.len()
                    invariant
                        i <= body.len(),
                        out@ == h + body@.take(i as int),
                    decreases body.len() - i,
                {
                    out.push(body[i]);
                    proof {
                        assert(body@.take(i + 1) =~= body@.take(i as int).push(body@[i as int]));
                    }
                    i = i + 1;
                }
                proof {
                    assert(body@.take(i as int) =~= body@);
                }
                out
            },
            Response::Nothing => string_bytes("none\n"),
            Response::Error(message) => {
                let m = replace_newlines(message.as_str());
                let line = concat("error ", m.as_str());
                let line = concat(line.as_str(), "\n");
                string_bytes(line.as_str())
            },
        }
    }

    /// Decodes the header line; the body length is what the caller then reads.
    pub fn parse_header(line: &str) -> (r: Option<Header>)
        ensures
            match parse_header_spec(line@) {
                Some(h) => r matches Some(x) && header_view(x) == h,
                None => r is None,
            },
    {
        let l = strip_eol_exec(line);
        if str_eq(l.as_str(), "none") {
            return Some(Header::Nothing);
        }
        proof {
            reveal_strlit("ok ");
            reveal_strlit("error ");
        }
        if starts_with(l.as_str(), "ok ") {
            let rest = skip_chars(l.as_str(), 3);
            return match parse_usize(rest.as_str()) {
                Some(n) => Some(Header::Bytes(n)),
                None => None,
            };
        }
        if starts_with(l.as_str(), "error ") {
            let rest = skip_chars(l.as_str(), 6);
            return Some(Header::Error(rest));
        }
        None
    }
}


proof fn lemma_trim_line(body: Seq<char>)
    requires
        body.len() > 0,
        !crate::title::is_ws(body[0]),
        !crate::title::is_ws(body.last()),
    ensures
        trim_spec(body + seq!['\n']) == body,
{
    let s = body + seq!['\n'];
    assert(s[0] == body[0]);
    assert(crate::title::trim_start(s) == s);
    assert(s.last() == '\n');
    assert(s.drop_last() =~= body);
    assert(crate::title::trim_end(body) == body);
}

/// Law: every request survives its own line: parsing what `encode` writes gives the
/// request back.
pub proof fn law_request_round_trip(r: Request)
    ensures
        request_parse_spec(request_encode_spec(r)) == Some(r),
{
    reveal_strlit("targets\n");
    reveal_strlit("targets");
    reveal_strlit("get ");
    reveal_strlit("image/png");
    reveal_strlit("text/plain");
    reveal_strlit("\n");
    match r {
        Request::Targets => {
            assert("targets\n"@ =~= "targets"@ + seq!['\n']);
            lemma_trim_line("targets"@);
        },
        Request::Get(t) => {
            let body = "get "@ + mime_spec(t);
            assert(request_encode_spec(r) =~= body + seq!['\n']);
            assert(body[0] == 'g');
            lemma_trim_line(body);
            assert(body.take(4) =~= "get "@);
            assert(body.skip(4) =~= mime_spec(t));
            assert(body != "targets"@) by {
                assert(body.len() != 7 || body[1] != 'a');
            }
            assert("image/png"@ != "text/plain"@) by {
                assert("image/png"@.len() != "text/plain"@.len());
            }
        },
    }
}

/// The header a response carries, as its line reads back.
pub open spec fn header_of(r: Response) -> HeaderView {
    match r {
        Response::Bytes(b) => HeaderView::Bytes(b@.len() as usize),
        Response::Nothing => HeaderView::Nothing,
        Response::Error(m) => HeaderView::Error(one_line(m@)),
    }
}

/// The header line of a response, newline included.
pub open spec fn header_text(r: Response) -> Seq<char> {
    match r {
        Response::Bytes(b) => "ok "@ + decimal(b@.len()) + "\n"@,
        Response::Nothing => "none\n"@,
        Response::Error(m) => "error "@ + one_line(m@) + "\n"@,
    }
}

proof fn lemma_decimal_parses(n: nat)
    ensures
        decimal(n).len() > 0,
        crate::text::all_digits(decimal(n)),
        crate::text::digits_value(decimal(n)) == n,
        crate::text::is_digit(decimal(n)[0]),
    decreases n,
{
    let c = crate::text::digit_char(n % 10);
    assert((c as u32) == ('0' as u32) + n % 10);
    if n < 10 {
        let d = decimal(n);
        assert(d.drop_last() =~= Seq::<char>::empty());
        assert(d.last() == c);
        assert(crate::text::digits_value(d.drop_last()) == 0);
        assert(crate::text::digits_value(d) == n);
    } else {
        lemma_decimal_parses(n / 10);
        let d = decimal(n);
        assert(d.last() == c);
        assert(d.drop_last() =~= decimal(n / 10));
        assert(crate::text::digits_value(d) == crate::text::digits_value(decimal(n / 10)) * 10 + n % 10);
        assert((n / 10) * 10 + n % 10 == n);
        assert(d.drop_last() =~= decimal(n / 10));
        assert(d[0] == decimal(n / 10)[0]);
        assert forall|i: int| 0 <= i < d.len() implies crate::text::is_digit(#[trigger] d[i]) by {
            if i < d.len() - 1 {
                assert(d[i] == decimal(n / 10)[i]);
            }
        }
    }
}

proof fn lemma_strip_eol_line(body: Seq<char>)
    requires
        body.len() == 0 || (body.last() != '\r' && body.last() != '\n'),
    ensures
        strip_eol(body + seq!['\n']) == body,
{
    let s = body + seq!['\n'];
    assert(s.drop_last() =~= body);
    assert(strip_eol(body) == body);
    assert(s.len() > 0 && s.last() == '\n');
}

/// Law: a response's header line reads back as the header it was written for: the body
/// length, `none`, or the error message on one line. (A message that ends in a carriage
/// return loses it: the reader drops end-of-line characters.)
pub proof fn law_response_header_round_trip(r: Response)
    requires
        r matches Response::Bytes(b) ==> b@.len() <= usize::MAX,
        r matches Response::Error(m) ==> (m@.len() == 0 || m@.last() != '\r'),
    ensures
        response_encode_spec(r) == utf8(header_text(r)) + match r {
            Response::Bytes(b) => b@,
            _ => Seq::empty(),
        },
        parse_header_spec(header_text(r)) == Some(header_of(r)),
{
    reveal_strlit("ok ");
    reveal_strlit("none\n");
    reveal_strlit("none");
    reveal_strlit("error ");
    reveal_strlit("\n");
    match r {
        Response::Bytes(b) => {
            let n = b@.len();
            lemma_decimal_parses(n);
            let body = "ok "@ + decimal(n);
            assert(header_text(r) =~= body + seq!['\n']);
            assert(body.last() == decimal(n).last());
            assert(decimal(n)[decimal(n).len() - 1] == decimal(n).last());
            lemma_strip_eol_line(body);
            assert(body.take(3) =~= "ok "@);
            assert(body.skip(3) =~= decimal(n));
            assert(body != "none"@) by {
                assert(body[0] == 'o');
            }
            assert(crate::text::sign_stripped(decimal(n)) == decimal(n));
        },
        Response::Nothing => {
            assert("none\n"@ =~= "none"@ + seq!['\n']);
            lemma_strip_eol_line("none"@);
            assert(utf8("none\n"@) + Seq::<u8>::empty() =~= utf8("none\n"@));
        },
        Response::Error(m) => {
            let body = "error "@ + one_line(m@);
            assert(header_text(r) =~= body + seq!['\n']);
            if m@.len() > 0 {
                assert(body.last() == one_line(m@).last());
            } else {
                assert(body =~= "error "@);
            }
            lemma_strip_eol_line(body);
            assert(body.take(6) =~= "error "@);
            assert(body.skip(6) =~= one_line(m@));
            assert(body != "none"@) by {
                assert(body[0] == 'e');
            }
            assert(!(body.len() >= 3 && body.take(3) == "ok "@)) by {
                assert(body[0] == 'e');
                if body.len() >= 3 && body.take(3) == "ok "@ {
                    assert(body.take(3)[0] == 'o');
                }
            }
            assert(utf8(header_text(r)) + Seq::<u8>::empty() =~= utf8(header_text(r)));
        },
    }
}


proof fn lemma_encode_concat(a: Seq<char>, b: Seq<char>)
    ensures
        utf8(a + b) == utf8(a) + utf8(b),
    decreases a.len(),
{
    if a.len() == 0 {
        assert(a + b =~= b);
        assert(Seq::<u8>::empty() + utf8(b) =~= utf8(b));
    } else {
        lemma_encode_concat(a.drop_first(), b);
        assert((a + b)[0] == a[0]);
        assert((a + b).drop_first() =~= a.drop_first() + b);
        let e = vstd::utf8::encode_scalar(a[0] as u32);
        assert(e + (utf8(a.drop_first()) + utf8(b)) =~= (e + utf8(a.drop_first())) + utf8(b));
    }
}

/// No byte of a character's encoding is a newline byte, unless the character is one.
proof fn lemma_scalar_no_newline(c: char)
    requires
        c != '\n',
    ensures
        forall|i: int| 0 <= i < vstd::utf8::encode_scalar(c as u32).len() ==> #[trigger] vstd::utf8::encode_scalar(c as u32)[i] != 0x0au8,
{
    let u = c as u32;
    assert(u != 10u32);
    if vstd::utf8::has_width_1_encoding(u) {
        assert(u <= 0x7F);
        assert(((u & 0x7Fu32) as u8) != 10u8) by (bit_vector)
            requires
                u <= 0x7Fu32,
                u != 10u32,
        ;
    } else {
        let y2: u8 = ((u >> 6u32) & 0x1Fu32) as u8;
        let y3: u8 = ((u >> 12u32) & 0x0Fu32) as u8;
        let y4: u8 = ((u >> 18u32) & 0x7u32) as u8;
        let c1: u8 = (u & 0x3Fu32) as u8;
        let c2: u8 = ((u >> 6u32) & 0x3Fu32) as u8;
        let c3: u8 = ((u >> 12u32) & 0x3Fu32) as u8;
        assert((0xC0u8 | y2) != 10u8) by (bit_vector);
        assert((0xE0u8 | y3) != 10u8) by (bit_vector);
        assert((0xF0u8 | y4) != 10u8) by (bit_vector);
        assert((0x80u8 | c1) != 10u8) by (bit_vector);
        assert((0x80u8 | c2) != 10u8) by (bit_vector);
        assert((0x80u8 | c3) != 10u8) by (bit_vector);
    }
}

/// Text without a newline encodes to bytes without a newline byte.
proof fn lemma_no_newline_byte(s: Seq<char>)
    requires
        forall|i: int| 0 <= i < s.len() ==> #[trigger] s[i] != '\n',
    ensures
        forall|j: int| 0 <= j < utf8(s).len() ==> #[trigger] utf8(s)[j] != 0x0au8,
    decreases s.len(),
{
    if s.len() > 0 {
        let t = s.drop_first();
        assert forall|i: int| 0 <= i < t.len() implies #[trigger] t[i] != '\n' by {
            assert(t[i] == s[i + 1]);
        }
        lemma_no_newline_byte(t);
        lemma_scalar_no_newline(s[0]);
        let e = vstd::utf8::encode_scalar(s[0] as u32);
        assert(utf8(s) == e + utf8(t));
        assert forall|j: int| 0 <= j < utf8(s).len() implies #[trigger] utf8(s)[j] != 0x0au8 by {
            if j < e.len() {
                assert(utf8(s)[j] == e[j]);
            } else {
                assert(utf8(s)[j] == utf8(t)[j - e.len()]);
            }
        }
    }
}

/// The header line without its newline.
pub open spec fn header_body(r: Response) -> Seq<char> {
    match r {
        Response::Bytes(b) => "ok "@ + decimal(b@.len()),
        Response::Nothing => "none"@,
        Response::Error(m) => "error "@ + one_line(m@),
    }
}

/// Law: the header a reader takes from an encoded response, its bytes up to and including
/// the first newline byte, reads back as the header the response was written for. (A
/// message that ends in a carriage return loses it, as in the header round trip.)
pub proof fn law_header_is_the_first_line(r: Response)
    requires
        r matches Response::Bytes(b) ==> b@.len() <= usize::MAX,
        r matches Response::Error(m) ==> (m@.len() == 0 || m@.last() != '\r'),
    ensures
        exists|k: int|
            0 <= k < response_encode_spec(r).len() && response_encode_spec(r)[k] == 0x0au8 && (forall|j: int|
                0 <= j < k ==> #[trigger] response_encode_spec(r)[j] != 0x0au8) && decode_utf8(
                response_encode_spec(r).take(k + 1),
            ) == header_text(r) && parse_header_spec(decode_utf8(response_encode_spec(r).take(k + 1)))
                == Some(header_of(r)),
{
    law_response_header_round_trip(r);
    reveal_strlit("ok ");
    reveal_strlit("none\n");
    reveal_strlit("none");
    reveal_strlit("error ");
    reveal_strlit("\n");
    let body = header_body(r);
    assert(header_text(r) =~= body + seq!['\n']);
    assert forall|i: int| 0 <= i < body.len() implies #[trigger] body[i] != '\n' by {
        match r {
            Response::Bytes(b) => {
                lemma_decimal_parses(b@.len());
                if i >= 3 {
                    assert(body[i] == decimal(b@.len())[i - 3]);
                    assert(crate::text::is_digit(decimal(b@.len())[i - 3]));
                }
            },
            Response::Nothing => {},
            Response::Error(m) => {
                if i >= 6 {
                    assert(body[i] == one_line(m@)[i - 6]);
                }
            },
        }
    }
    lemma_no_newline_byte(body);
    lemma_encode_concat(body, seq!['\n']);
    assert(seq!['\n'].drop_first() =~= Seq::<char>::empty());
    assert(('\n' as u32) == 10u32);
    assert(((10u32 & 0x7Fu32) as u8) == 10u8) by (bit_vector);
    assert(seq!['\n'][0] == '\n');
    assert(vstd::utf8::has_width_1_encoding(10u32));
    assert(vstd::utf8::leading_byte_width_1(10u32) == 10u8);
    assert(vstd::utf8::encode_scalar(10u32) =~= seq![0x0au8]);
    assert(vstd::utf8::encode_utf8(Seq::<char>::empty()) =~= Seq::<u8>::empty());
    assert(utf8(seq!['\n']) =~= seq![0x0au8]);
    let e = response_encode_spec(r);
    let h = utf8(header_text(r));
    let k = utf8(body).len() as int;
    assert(h =~= utf8(body) + seq![0x0au8]);
    assert(e.take(k + 1) =~= h);
    assert(e[k] == h[k]);
    assert forall|j: int| 0 <= j < k implies #[trigger] e[j] != 0x0au8 by {
        assert(e[j] == h[j]);
        assert(h[j] == utf8(body)[j]);
    }
    vstd::utf8::encode_utf8_decode_utf8(header_text(r));
    assert(decode_utf8(e.take(k + 1)) == header_text(r));
}

/// One parsed `xclip` invocation.
#[derive(Debug, PartialEq, Eq)]
pub enum Invocation {
    Request(Request),
    /// Anything the bridge does not serve: an unknown target, or input mode.
    Unsupported(String),
}

pub open spec fn is_output_flag(a: Seq<char>) -> bool {
    a == "-o"@ || a == "-out"@ || a == "-output"@
}

pub open spec fn is_input_flag(a: Seq<char>) -> bool {
    a == "-i"@ || a == "-in"@ || a == "-input"@
}

pub open spec fn is_target_flag(a: Seq<char>) -> bool {
    a == "-t"@ || a == "-target"@
}

/// The flags that take a value the bridge ignores.
pub open spec fn is_skipped_flag(a: Seq<char>) -> bool {
    a == "-selection"@ || a == "-sel"@ || a == "-display"@ || a == "-d"@ || a == "-l"@ || a
        == "-loops"@
}

/// What the flags say: the target asked for, output mode, input mode. `-t` takes the
/// next argument as the target (none when there is no next); the ignored flags skip
/// theirs; anything unknown is passed over.
pub open spec fn scan_flags(
    args: Seq<Seq<char>>,
    target: Option<Seq<char>>,
    output: bool,
    input: bool,
) -> (Option<Seq<char>>, bool, bool)
    decreases args.len(),
{
    if args.len() == 0 {
        (target, output, input)
    } else {
        let a = args[0];
        let rest = args.drop_first();
        if is_output_flag(a) {
            scan_flags(rest, target, true, input)
        } else if is_input_flag(a) {
            scan_flags(rest, target, output, true)
        } else if is_target_flag(a) {
            if rest.len() > 0 {
                scan_flags(rest.drop_first(), Some(rest[0]), output, input)
            } else {
                (None, output, input)
            }
        } else if is_skipped_flag(a) {
            if rest.len() > 0 {
                scan_flags(rest.drop_first(), target, output, input)
            } else {
                (target, output, input)
            }
        } else {
            scan_flags(rest, target, output, input)
        }
    }
}

/// The code of `c` with ASCII letters folded to lower case.
pub open spec fn ascii_lower(c: char) -> int {
    if 'A' <= c && c <= 'Z' {
        (c as u32) + 32
    } else {
        c as u32 as int
    }
}

/// Equal but for the case of ASCII letters.
pub open spec fn eq_ignore_ascii_case(a: Seq<char>, b: Seq<char>) -> bool {
    a.len() == b.len() && forall|i: int| 0 <= i < a.len() ==> ascii_lower(#[trigger] a[i]) == ascii_lower(b[i])
}

/// The invocation an argument list makes. Reading only: input mode, or no output flag,
/// is refused. No target, or a text name of xclip's own, means text; `TARGETS` (any case)
/// lists; a served MIME type is fetched; anything else is refused.
pub enum InvocationView {
    Request(Request),
    Unsupported(Seq<char>),
}

pub open spec fn invocation_spec(args: Seq<Seq<char>>) -> InvocationView {
    let (target, output, input) = scan_flags(args, None, false, false);
    if input || !output {
        InvocationView::Unsupported("only reading the host clipboard is bridged; copying into it is not"@)
    } else {
        match target {
            None => InvocationView::Request(Request::Get(Target::Text)),
            Some(t) => if t == "UTF8_STRING"@ || t == "STRING"@ {
                InvocationView::Request(Request::Get(Target::Text))
            } else if eq_ignore_ascii_case(t, "TARGETS"@) {
                InvocationView::Request(Request::Targets)
            } else if t == "image/png"@ {
                InvocationView::Request(Request::Get(Target::Image))
            } else if t == "text/plain"@ {
                InvocationView::Request(Request::Get(Target::Text))
            } else {
                InvocationView::Unsupported("target "@ + t + " is not served by the bridge"@)
            },
        }
    }
}

pub open spec fn invocation_view(i: Invocation) -> InvocationView {
    match i {
        Invocation::Request(r) => InvocationView::Request(r),
        Invocation::Unsupported(m) => InvocationView::Unsupported(m@),
    }
}

fn lower_code(c: char) -> (r: u32)
    ensures
        r as int == ascii_lower(c),
{
    if 'A' <= c && c <= 'Z' {
        (c as u32) + 32
    } else {
        c as u32
    }
}

fn eq_ignore_case_exec(a: &str, b: &str) -> (r: bool)
    ensures
        r == eq_ignore_ascii_case(a@, b@),
{
    let ca = chars_of(a);
    let cb = chars_of(b);
    if ca.len() != cb.len() {
        return false;
    }
    let mut i: usize = 0;
    while i < ca.len()
        invariant
            i <= ca.len(),
            ca.len() == cb.len(),
            ca@ == a@,
            cb@ == b@,
            forall|j: int| 0 <= j < i ==> ascii_lower(#[trigger] a@[j]) == ascii_lower(b@[j]),
        decreases ca.len() - i,
    {
        let lx = lower_code(ca[i]);
        let ly = lower_code(cb[i]);
        if lx != ly {
            return false;
        }
        i = i + 1;
    }
    true
}


pub open spec fn opt_view(o: Option<String>) -> Option<Seq<char>> {
    match o {
        Some(s) => Some(s@),
        None => None,
    }
}

fn is_one_of3(a: &str, x: &str, y: &str, z: &str) -> (r: bool)
    ensures
        r == (a@ == x@ || a@ == y@ || a@ == z@),
{
    str_eq(a, x) || str_eq(a, y) || str_eq(a, z)
}

/// Parses `xclip`'s own flags, as far as the bridge honours them. Unknown flags are passed
/// over rather than refused.
pub fn parse_args(args: &[String]) -> (r: Invocation)
    ensures
        invocation_view(r) == invocation_spec(views(args@)),
{
    let ghost av = views(args@);
    let mut target: Option<String> = None;
    let mut output = false;
    let mut input = false;
    let mut i: usize = 0;
    proof {
        assert(av.skip(0) =~= av);
    }
    while i < args.len()
        invariant
            i <= args.len(),
            av == views(args@),
            scan_flags(av.skip(i as int), opt_view(target), output, input) == scan_flags(av, None, false, false),
        decreases args.len() - i,
    {
        let a = args[i].as_str();
        let ghost t = av.skip(i as int);
        proof {
            assert(t[0] == args@[i as int]@);
            assert(t.drop_first() =~= av.skip(i + 1));
        }
        if is_one_of3(a, "-o", "-out", "-output") {
            output = true;
            i = i + 1;
        } else if is_one_of3(a, "-i", "-in", "-input") {
            input = true;
            i = i + 1;
        } else if str_eq(a, "-t") || str_eq(a, "-target") {
            if i + 1 < args.len() {
                target = Some(args[i + 1].clone());
                proof {
                    assert(t.drop_first()[0] == args@[i + 1]@);
                    assert(t.drop_first().drop_first() =~= av.skip(i + 2));
                }
                i = i + 2;
            } else {
                target = None;
                proof {
                    assert(av.skip(i + 1) =~= Seq::<Seq<char>>::empty());
                }
                i = i + 1;
            }
        } else if is_one_of3(a, "-selection", "-sel", "-display") || is_one_of3(a, "-d", "-l", "-loops") {
            if i + 1 < args.len() {
                proof {
                    assert(t.drop_first().drop_first() =~= av.skip(i + 2));
                }
                i = i + 2;
            } else {
                proof {
                    assert(av.skip(i + 1) =~= Seq::<Seq<char>>::empty());
                }
                i = i + 1;
            }
        } else {
            i = i + 1;
        }
    }
    proof {
        assert(av.skip(i as int) =~= Seq::<Seq<char>>::empty());
    }
    if input || !output {
        return Invocation::Unsupported(
            "only reading the host clipboard is bridged; copying into it is not".to_owned(),
        );
    }
    match target {
        None => Invocation::Request(Request::Get(Target::Text)),
        Some(t) => {
            if str_eq(t.as_str(), "UTF8_STRING") || str_eq(t.as_str(), "STRING") {
                Invocation::Request(Request::Get(Target::Text))
            } else if eq_ignore_case_exec(t.as_str(), "TARGETS") {
                Invocation::Request(Request::Targets)
            } else {
                match Target::parse(t.as_str()) {
                    Some(x) => Invocation::Request(Request::Get(x)),
                    None => {
                        let m = concat("target ", t.as_str());
                        Invocation::Unsupported(concat(m.as_str(), " is not served by the bridge"))
                    },
                }
            }
        },
    }
}

/// The targets the bridge serves out of a tool's own listing, one MIME type per line
/// (each line trimmed): the image when `image/png` is listed, text when a line starts with
/// `text/plain` or is `UTF8_STRING` or `STRING`.
pub open spec fn target_lines_spec(listing: Seq<char>) -> Seq<Target> {
    let lines = split_spec(listing, '\n');
    let has_image = exists|i: int| 0 <= i < lines.len() && trim_spec(#[trigger] lines[i]) == "image/png"@;
    let has_text = exists|i: int|
        0 <= i < lines.len() && is_text_line(trim_spec(#[trigger] lines[i]));
    (if has_image {
        seq![Target::Image]
    } else {
        Seq::empty()
    }) + (if has_text {
        seq![Target::Text]
    } else {
        Seq::empty()
    })
}

pub open spec fn is_text_line(l: Seq<char>) -> bool {
    (l.len() >= 10 && l.take(10) == "text/plain"@) || l == "UTF8_STRING"@ || l == "STRING"@
}

pub fn parse_target_lines(listing: &str) -> (r: Vec<Target>)
    ensures
        r@ == target_lines_spec(listing@),
{
    let lines = split_on(listing, '\n');
    let ghost lv = views(lines@);
    let mut has_image = false;
    let mut has_text = false;
    let mut i: usize = 0;
    while i < lines.len()
        invariant
            i <= lines.len(),
            lv == views(lines@),
            lv == split_spec(listing@, '\n'),
            has_image == exists|j: int| 0 <= j < i && trim_spec(#[trigger] lv[j]) == "image/png"@,
            has_text == exists|j: int| 0 <= j < i && is_text_line(trim_spec(#[trigger] lv[j])),
        decreases lines.len() - i,
    {
        let t = trim(lines[i].as_str());
        proof {
            assert(lv[i as int] == lines@[i as int]@);
            reveal_strlit("text/plain");
        }
        if str_eq(t.as_str(), "image/png") {
            has_image = true;
        }
        if starts_with(t.as_str(), "text/plain") || str_eq(t.as_str(), "UTF8_STRING") || str_eq(t.as_str(), "STRING") {
            has_text = true;
        }
        i = i + 1;
    }
    let mut out: Vec<Target> = Vec::new();
    if has_image {
        out.push(Target::Image);
    }
    if has_text {
        out.push(Target::Text);
    }
    proof {
        assert(out@ =~= target_lines_spec(listing@));
    }
    out
}

/// `None` for no bytes at all.
pub fn non_empty(bytes: Vec<u8>) -> (r: Option<Vec<u8>>)
    ensures
        bytes@.len() == 0 ==> r is None,
        bytes@.len() > 0 ==> r == Some(bytes),
{
    if bytes.len() == 0 {
        None
    } else {
        Some(bytes)
    }
}

/// Where the host clipboard is read from.
#[derive(Clone, Copy, Debug, PartialEq, Eq, Structural)]
pub enum Platform {
    /// Linux under WSL2: the Windows clipboard, through `powershell.exe`.
    Wsl,
    /// X11 or Wayland: `xclip` and `wl-paste`.
    Linux,
    /// `osascript` and `pbpaste`.
    MacOs,
}

/// The platform, from what the build targets and what the kernel reports: macOS; no
/// clipboard off Linux; WSL when the lower-cased kernel version names Microsoft or WSL.
pub open spec fn platform_spec(is_macos: bool, is_linux: bool, proc_version: Seq<char>) -> Option<Platform> {
    if is_macos {
        Some(Platform::MacOs)
    } else if !is_linux {
        None
    } else {
        let v = lowercase(proc_version);
        if contains_seq(v, "microsoft"@) || contains_seq(v, "wsl"@) {
            Some(Platform::Wsl)
        } else {
            Some(Platform::Linux)
        }
    }
}

pub fn detect_platform(is_macos: bool, is_linux: bool, proc_version: &str) -> (r: Option<Platform>)
    ensures
        r == platform_spec(is_macos, is_linux, proc_version@),
{
    if is_macos {
        return Some(Platform::MacOs);
    }
    if !is_linux {
        return None;
    }
    let v = to_lowercase(proc_version);
    if contains_str(v.as_str(), "microsoft") || contains_str(v.as_str(), "wsl") {
        Some(Platform::Wsl)
    } else {
        Some(Platform::Linux)
    }
}

/// The host clipboard of a platform the CLI knows how to read.
pub struct HostClipboard {
    platform: Platform,
}

impl HostClipboard {
    pub closed spec fn platform_view(&self) -> Platform {
        self.platform
    }

    /// `None` when the platform has no clipboard the CLI knows how to read.
    pub fn detect(is_macos: bool, is_linux: bool, proc_version: &str) -> (r: Option<HostClipboard>)
        ensures
            match platform_spec(is_macos, is_linux, proc_version@) {
                Some(p) => r matches Some(h) && h.platform_view() == p,
                None => r is None,
            },
    {
        match detect_platform(is_macos, is_linux, proc_version) {
            Some(platform) => Some(HostClipboard { platform }),
            None => None,
        }
    }

    pub fn platform(&self) -> (r: Platform)
        ensures
            r == self.platform_view(),
    {
        self.platform
    }
}

/// What the bridge does with one request line.
pub enum AnswerStep {
    /// Answer at once.
    Reply(Response),
    /// Ask the clipboard which targets it holds, then answer with `targets_response`.
    ListTargets,
    /// Read the clipboard as one target, then answer with `read_response`.
    Read(Target),
}

/// The first step of answering a request line: an unknown request is an error naming the
/// (trimmed) line.
pub fn answer_step(line: &str) -> (r: AnswerStep)
    ensures
        match request_parse_spec(line@) {
            None => r matches AnswerStep::Reply(Response::Error(m)) && m@ == "unknown request: "@ + trim_spec(line@),
            Some(Request::Targets) => r is ListTargets,
            Some(Request::Get(t)) => r matches AnswerStep::Read(x) && x == t,
        },
{
    match Request::parse(line) {
        None => {
            let t = trim(line);
            AnswerStep::Reply(Response::Error(concat("unknown request: ", t.as_str())))
        },
        Some(Request::Targets) => AnswerStep::ListTargets,
        Some(Request::Get(t)) => AnswerStep::Read(t),
    }
}

/// The MIME types of the targets, one per line.
pub open spec fn listing_spec(ts: Seq<Target>) -> Seq<char>
    decreases ts.len(),
{
    if ts.len() == 0 {
        Seq::empty()
    } else {
        listing_spec(ts.drop_last()) + mime_spec(ts.last()) + "\n"@
    }
}

/// The answer to `targets`: the listing, or `none` when the clipboard holds nothing served.
pub fn targets_response(targets: &Vec<Target>) -> (r: Response)
    ensures
        targets@.len() == 0 ==> r is Nothing,
        targets@.len() > 0 ==> (r matches Response::Bytes(b) && b@ == utf8(listing_spec(targets@))),
{
    let mut listing = String::new();
    let mut i: usize = 0;
    while i < targets.len()
        invariant
            i <= targets.len(),
            listing@ == listing_spec(targets@.take(i as int)),
        decreases targets.len() - i,
    {
        proof {
            assert(targets@.take(i + 1).drop_last() =~= targets@.take(i as int));
        }
        listing.append(targets[i].mime());
        listing.append("\n");
        i = i + 1;
    }
    proof {
        assert(targets@.take(i as int) =~= targets@);
    }
    if targets.len() == 0 {
        Response::Nothing
    } else {
        Response::Bytes(string_bytes(listing.as_str()))
    }
}

/// The answer to `get`: the bytes, `none`, or the error.
pub fn read_response(result: Result<Option<Vec<u8>>, String>) -> (r: Response)
    ensures
        match result {
            Ok(Some(b)) => r == Response::Bytes(b),
            Ok(None) => r is Nothing,
            Err(e) => r == Response::Error(e),
        },
{
    match result {
        Ok(Some(bytes)) => Response::Bytes(bytes),
        Ok(None) => Response::Nothing,
        Err(e) => Response::Error(e),
    }
}


/// What the base64 standard engine makes of some bytes: the decoded bytes, or the error's
/// message.
pub uninterp spec fn base64_decoded(input: Seq<u8>) -> Result<Seq<u8>, Seq<char>>;

/// What the base64 standard engine writes for some bytes.
pub uninterp spec fn base64_encoded(input: Seq<u8>) -> Seq<char>;

/// A character of the standard base64 alphabet, padding included.
pub open spec fn base64_char(c: char) -> bool {
    ('A' <= c && c <= 'Z') || ('a' <= c && c <= 'z') || ('0' <= c && c <= '9') || c == '+' || c
        == '/' || c == '='
}

/// Text made of base64 characters only.
pub open spec fn base64_text(s: Seq<char>) -> bool {
    forall|i: int| 0 <= i < s.len() ==> #[trigger] base64_char(s[i])
}

/// Whether decoding `text` gives back `bytes`.
pub open spec fn decodes_to(text: Seq<char>, bytes: Seq<u8>) -> bool {
    base64_decoded(vstd::utf8::encode_utf8(text)) == Ok::<Seq<u8>, Seq<char>>(bytes)
}

/// `base64::engine::general_purpose::STANDARD.encode`: text in the standard alphabet, with
/// padding, that decodes to the bytes again.
#[verifier::external_body]
pub(crate) fn base64_encode(input: &[u8]) -> (r: String)
    ensures
        r@ == base64_encoded(input@),
        base64_text(r@),
        decodes_to(r@, input@),
{
    Engine::encode(&base64::engine::general_purpose::STANDARD, input)
}

/// `base64::engine::general_purpose::STANDARD.decode`, its error rendered as text.
#[verifier::external_body]
pub(crate) fn base64_decode(input: &[u8]) -> (r: Result<Vec<u8>, String>)
    ensures
        match base64_decoded(input@) {
            Ok(b) => r matches Ok(x) && x@ == b,
            Err(e) => r matches Err(m) && m@ == e,
        },
{
    match Engine::decode(&base64::engine::general_purpose::STANDARD, input) {
        Ok(b) => Ok(b),
        Err(e) => Err(e.to_string()),
    }
}

/// ASCII white space as `u8::is_ascii_whitespace` has it.
pub open spec fn is_ascii_ws(b: u8) -> bool {
    b == 0x20 || b == 0x09 || b == 0x0a || b == 0x0c || b == 0x0d
}

/// `bytes` without ASCII white space.
pub open spec fn strip_ws_spec(bytes: Seq<u8>) -> Seq<u8>
    decreases bytes.len(),
{
    if bytes.len() == 0 {
        bytes
    } else if is_ascii_ws(bytes.last()) {
        strip_ws_spec(bytes.drop_last())
    } else {
        strip_ws_spec(bytes.drop_last()).push(bytes.last())
    }
}

fn strip_ascii_whitespace(bytes: &Vec<u8>) -> (r: Vec<u8>)
    ensures
        r@ == strip_ws_spec(bytes@),
{
    let mut out: Vec<u8> = Vec::new();
    let mut i: usize = 0;
    while i < bytes.len()
        invariant
            i <= bytes.len(),
            out@ == strip_ws_spec(bytes@.take(i as int)),
        decreases bytes.len() - i,
    {
        proof {
            assert(bytes@.take(i + 1).drop_last() =~= bytes@.take(i as int));
        }
        let b = bytes[i];
        if !(b == 0x20 || b == 0x09 || b == 0x0a || b == 0x0c || b == 0x0d) {
            out.push(b);
        }
        i = i + 1;
    }
    proof {
        assert(bytes@.take(i as int) =~= bytes@);
    }
    out
}

/// The image PowerShell printed as base64: the decoded PNG (none when empty), or why it
/// could not be decoded.
pub fn wsl_image(out: Vec<u8>) -> (r: Result<Option<Vec<u8>>, String>)
    ensures
        match base64_decoded(strip_ws_spec(out@)) {
            Ok(png) => if png.len() == 0 {
                r matches Ok(None)
            } else {
                r matches Ok(Some(x)) && x@ == png
            },
            Err(e) => r matches Err(m) && m@ == "powershell returned malformed image data: "@ + e,
        },
{
    let encoded = strip_ascii_whitespace(&out);
    match base64_decode(encoded.as_slice()) {
        Ok(png) => Ok(non_empty(png)),
        Err(e) => Err(concat("powershell returned malformed image data: ", e.as_str())),
    }
}

/// Text decoded from UTF-8 with invalid sequences replaced, as `String::from_utf8_lossy`
/// gives it.
pub uninterp spec fn utf8_lossy(b: Seq<u8>) -> Seq<char>;

/// `String::from_utf8_lossy`, owned.
#[verifier::external_body]
pub(crate) fn from_utf8_lossy(b: &[u8]) -> (r: String)
    ensures
        r@ == utf8_lossy(b@),
{
    String::from_utf8_lossy(b).into_owned()
}

/// `s` with every CRLF pair turned into a single LF.
pub open spec fn crlf_to_lf(s: Seq<char>) -> Seq<char>
    decreases s.len(),
{
    if s.len() == 0 {
        s
    } else if s.len() >= 2 && s[0] == '\r' && s[1] == '\n' {
        seq!['\n'] + crlf_to_lf(s.skip(2))
    } else {
        seq![s[0]] + crlf_to_lf(s.skip(1))
    }
}

fn replace_crlf(s: &str) -> (r: String)
    ensures
        r@ == crlf_to_lf(s@),
{
    let cs = chars_of(s);
    let mut out = String::new();
    let mut i: usize = 0;
    proof {
        assert(s@.skip(0) =~= s@);
    }
    while i < cs.len()
        invariant
            i <= cs.len(),
            cs@ == s@,
            out@ + crlf_to_lf(s@.skip(i as int)) == crlf_to_lf(s@),
        decreases cs.len() - i,
    {
        let ghost t = s@.skip(i as int);
        let ghost before = out@;
        if i + 1 < cs.len() && cs[i] == '\r' && cs[i + 1] == '\n' {
            proof {
                assert(t[0] == '\r' && t[1] == '\n');
                assert(t.skip(2) =~= s@.skip(i + 2));
            }
            push_char(&mut out, '\n');
            proof {
                assert(out@ + crlf_to_lf(s@.skip(i + 2)) =~= before + crlf_to_lf(t));
            }
            i = i + 2;
        } else {
            proof {
                assert(t[0] == cs@[i as int]);
                assert(t.skip(1) =~= s@.skip(i + 1));
            }
            push_char(&mut out, cs[i]);
            proof {
                assert(out@ + crlf_to_lf(s@.skip(i + 1)) =~= before + crlf_to_lf(t));
            }
            i = i + 1;
        }
    }
    proof {
        assert(s@.skip(i as int) =~= Seq::<char>::empty());
        assert(out@ + Seq::<char>::empty() =~= out@);
    }
    out
}

/// The text PowerShell printed: read lossily, CRLF turned into LF, as UTF-8 bytes; none
/// when empty.
pub fn wsl_text(out: Vec<u8>) -> (r: Option<Vec<u8>>)
    ensures
        ({
            let b = utf8(crlf_to_lf(utf8_lossy(out@)));
            if b.len() == 0 {
                r is None
            } else {
                r matches Some(x) && x@ == b
            }
        }),
{
    let text = from_utf8_lossy(out.as_slice());
    let text = replace_crlf(text.as_str());
    non_empty(string_bytes(text.as_str()))
}

/// `s` escaped for an AppleScript string literal: backslashes first, then quotes.
pub open spec fn applescript_escape(s: Seq<char>) -> Seq<char>
    decreases s.len(),
{
    if s.len() == 0 {
        s
    } else {
        applescript_escape(s.drop_last()) + if s.last() == '\\' {
            seq!['\\', '\\']
        } else if s.last() == '"' {
            seq!['\\', '"']
        } else {
            seq![s.last()]
        }
    }
}

fn escape_applescript(s: &str) -> (r: String)
    ensures
        r@ == applescript_escape(s@),
{
    let cs = chars_of(s);
    let mut out = String::new();
    let mut i: usize = 0;
    while i < cs.len()
        invariant
            i <= cs.len(),
            cs@ == s@,
            out@ == applescript_escape(s@.take(i as int)),
        decreases cs.len() - i,
    {
        proof {
            assert(s@.take(i + 1).drop_last() =~= s@.take(i as int));
        }
        let c = cs[i];
        if c == '\\' {
            push_char(&mut out, '\\');
            push_char(&mut out, '\\');
        } else if c == '"' {
            push_char(&mut out, '\\');
            push_char(&mut out, '"');
        } else {
            push_char(&mut out, c);
        }
        proof {
            assert(out@ =~= applescript_escape(s@.take(i + 1)));
        }
        i = i + 1;
    }
    proof {
        assert(s@.take(i as int) =~= s@);
    }
    out
}

/// The AppleScript that writes the clipboard's PNG to the file at `path`, one line per
/// `-e` argument.
pub fn macos_image_script(path: &str) -> (r: Vec<String>)
    ensures
        views(r@) == seq![
            "set png_data to (the clipboard as \u{ab}class PNGf\u{bb})"@,
            "set fp to open for access POSIX file \""@ + applescript_escape(path@)
                + "\" with write permission"@,
            "write png_data to fp"@,
            "close access fp"@,
        ],
{
    let mut v: Vec<String> = Vec::new();
    push_string(&mut v, "set png_data to (the clipboard as \u{ab}class PNGf\u{bb})".to_owned());
    let p = escape_applescript(path);
    let line = concat("set fp to open for access POSIX file \"", p.as_str());
    push_string(&mut v, concat(line.as_str(), "\" with write permission"));
    push_string(&mut v, "write png_data to fp".to_owned());
    push_string(&mut v, "close access fp".to_owned());
    proof {
        assert(views(v@) =~= seq![
            "set png_data to (the clipboard as \u{ab}class PNGf\u{bb})"@,
            "set fp to open for access POSIX file \""@ + applescript_escape(path@)
                + "\" with write permission"@,
            "write png_data to fp"@,
            "close access fp"@,
        ]);
    }
    v
}

fn argv(items: &[&str]) -> (r: Vec<String>)
    ensures
        views(r@) == items@.map_values(|x: &str| x@),
{
    let mut v: Vec<String> = Vec::new();
    let mut i: usize = 0;
    while i < items.len()
        invariant
            i <= items.len(),
            views(v@) == items@.map_values(|x: &str| x@).take(i as int),
        decreases items.len() - i,
    {
        let ghost before = views(v@);
        v.push(items[i].to_owned());
        proof {
            assert(views(v@) =~= before.push(items@[i as int]@));
            assert(items@.map_values(|x: &str| x@).take(i + 1) =~= items@.map_values(|x: &str| x@).take(i as int).push(items@[i as int]@));
        }
        i = i + 1;
    }
    proof {
        assert(items@.map_values(|x: &str| x@).take(i as int) =~= items@.map_values(|x: &str| x@));
    }
    v
}

/// The Wayland command, then the X11 one, or the other way round: whichever display server
/// is running goes first, and the other is tried anyway.
pub open spec fn in_order(wayland: Seq<Seq<char>>, x11: Seq<Seq<char>>, wayland_first: bool) -> Seq<Seq<Seq<char>>> {
    if wayland_first {
        seq![wayland, x11]
    } else {
        seq![x11, wayland]
    }
}

/// The commands that list what the Linux clipboard holds, in the order they are tried.
pub fn linux_list_commands(wayland_first: bool) -> (r: Vec<Vec<String>>)
    ensures
        r@.map_values(|c: Vec<String>| views(c@)) == in_order(
            seq!["wl-paste"@, "--list-types"@],
            seq!["xclip"@, "-selection"@, "clipboard"@, "-t"@, "TARGETS"@, "-o"@],
            wayland_first,
        ),
{
    let w = argv(&["wl-paste", "--list-types"]);
    let x = argv(&["xclip", "-selection", "clipboard", "-t", "TARGETS", "-o"]);
    proof {
        assert(views(w@) =~= seq!["wl-paste"@, "--list-types"@]);
        assert(views(x@) =~= seq!["xclip"@, "-selection"@, "clipboard"@, "-t"@, "TARGETS"@, "-o"@]);
    }
    let ghost wv = views(w@);
    let ghost xv = views(x@);
    let mut r: Vec<Vec<String>> = Vec::new();
    if wayland_first {
        r.push(w);
        r.push(x);
    } else {
        r.push(x);
        r.push(w);
    }
    proof {
        assert(r@.map_values(|c: Vec<String>| views(c@)) =~= in_order(
            seq!["wl-paste"@, "--list-types"@],
            seq!["xclip"@, "-selection"@, "clipboard"@, "-t"@, "TARGETS"@, "-o"@],
            wayland_first,
        ));
    }
    r
}

/// The commands that read one kind from the Linux clipboard, in the order they are tried.
/// Text is read without naming a type: both tools default to it, and naming `text/plain`
/// fails on a selection that only offers `UTF8_STRING`.
pub open spec fn linux_read_spec(target: Target, wayland_first: bool) -> Seq<Seq<Seq<char>>> {
    match target {
        Target::Image => in_order(
            seq!["wl-paste"@, "--type"@, "image/png"@],
            seq!["xclip"@, "-selection"@, "clipboard"@, "-t"@, "image/png"@, "-o"@],
            wayland_first,
        ),
        Target::Text => in_order(
            seq!["wl-paste"@, "--no-newline"@],
            seq!["xclip"@, "-selection"@, "clipboard"@, "-o"@],
            wayland_first,
        ),
    }
}

pub fn linux_read_commands(target: Target, wayland_first: bool) -> (r: Vec<Vec<String>>)
    ensures
        r@.map_values(|c: Vec<String>| views(c@)) == linux_read_spec(target, wayland_first),
{
    let (w, x) = match target {
        Target::Image => {
            let w = argv(&["wl-paste", "--type", "image/png"]);
            let x = argv(&["xclip", "-selection", "clipboard", "-t", "image/png", "-o"]);
            proof {
                assert(views(w@) =~= seq!["wl-paste"@, "--type"@, "image/png"@]);
                assert(views(x@) =~= seq!["xclip"@, "-selection"@, "clipboard"@, "-t"@, "image/png"@, "-o"@]);
            }
            (w, x)
        },
        Target::Text => {
            let w = argv(&["wl-paste", "--no-newline"]);
            let x = argv(&["xclip", "-selection", "clipboard", "-o"]);
            proof {
                assert(views(w@) =~= seq!["wl-paste"@, "--no-newline"@]);
                assert(views(x@) =~= seq!["xclip"@, "-selection"@, "clipboard"@, "-o"@]);
            }
            (w, x)
        },
    };
    let mut r: Vec<Vec<String>> = Vec::new();
    if wayland_first {
        r.push(w);
        r.push(x);
    } else {
        r.push(x);
        r.push(w);
    }
    proof {
        assert(r@.map_values(|c: Vec<String>| views(c@)) =~= linux_read_spec(target, wayland_first));
    }
    r
}

/// xclip's own names for text, and `text/plain`.
pub open spec fn is_text_target_name(t: Seq<char>) -> bool {
    t == "UTF8_STRING"@ || t == "STRING"@ || t == "text/plain"@
}

/// Law: xclip's own text target names read the text. In a reading invocation (an output
/// flag and no input flag), a target named `UTF8_STRING` or `STRING` asks for the text,
/// as no target and `text/plain` do.
pub proof fn law_text_targets_read_text(args: Seq<Seq<char>>)
    requires
        scan_flags(args, None, false, false).1,
        !scan_flags(args, None, false, false).2,
        scan_flags(args, None, false, false).0 matches Some(t) ==> is_text_target_name(t),
    ensures
        invocation_spec(args) == InvocationView::Request(Request::Get(Target::Text)),
{
    reveal_strlit("UTF8_STRING");
    reveal_strlit("STRING");
    reveal_strlit("text/plain");
    reveal_strlit("TARGETS");
    reveal_strlit("image/png");
    if let Some(t) = scan_flags(args, None, false, false).0 {
        if t == "text/plain"@ {
            assert(!eq_ignore_ascii_case(t, "TARGETS"@)) by {
                assert(t.len() != "TARGETS"@.len());
            }
            assert(t != "image/png"@) by {
                assert(t[0] != "image/png"@[0]);
            }
        }
    }
}

/// Law: the calls an agent makes to read text, `xclip -selection <any> -t <name> -o` with
/// a text name of xclip's own or `text/plain`, ask for the text.
pub proof fn law_read_text_call(sel: Seq<char>, t: Seq<char>)
    requires
        is_text_target_name(t),
    ensures
        invocation_spec(seq!["-selection"@, sel, "-t"@, t, "-o"@]) == InvocationView::Request(
            Request::Get(Target::Text),
        ),
{
    reveal_strlit("-selection");
    reveal_strlit("-sel");
    reveal_strlit("-display");
    reveal_strlit("-d");
    reveal_strlit("-l");
    reveal_strlit("-loops");
    reveal_strlit("-t");
    reveal_strlit("-target");
    reveal_strlit("-o");
    reveal_strlit("-out");
    reveal_strlit("-output");
    reveal_strlit("-i");
    reveal_strlit("-in");
    reveal_strlit("-input");
    let args = seq!["-selection"@, sel, "-t"@, t, "-o"@];
    let a1 = args.drop_first();
    let a2 = a1.drop_first();
    let a3 = a2.drop_first();
    let a4 = a3.drop_first();
    let a5 = a4.drop_first();
    assert(a2 =~= seq!["-t"@, t, "-o"@]);
    assert(a4 =~= seq!["-o"@]);
    assert(a5 =~= Seq::<Seq<char>>::empty());
    assert(!is_output_flag("-selection"@) && !is_input_flag("-selection"@) && !is_target_flag("-selection"@)) by {
        assert("-selection"@[1] == 's');
    }
    assert(is_skipped_flag("-selection"@));
    assert(!is_output_flag("-t"@) && !is_input_flag("-t"@)) by {
        assert("-t"@[1] == 't');
    }
    assert(is_target_flag("-t"@));
    assert(is_output_flag("-o"@));
    assert(scan_flags(a5, Some(t), true, false) == (Some(t), true, false));
    assert(scan_flags(a4, Some(t), false, false) == (Some(t), true, false));
    assert(scan_flags(a2, None, false, false) == (Some(t), true, false));
    assert(scan_flags(args, None, false, false) == (Some(t), true, false));
    law_text_targets_read_text(args);
}

} // verus!



