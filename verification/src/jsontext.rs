//! JSON text of plain values, as `serde_json` writes it, and reading a JSON list of
//! strings.
use vstd::prelude::*;
use crate::text::{views, chars_of, push_char};
use crate::json::{Json, JsonV, view_items, view_members, lemma_view_items, lemma_view_members};
use crate::image::hex_digit_char;

verus! {

/// A hexadecimal digit, lower case.
pub open spec fn hex_digit(d: u32) -> char {
    if d < 10 {
        (('0' as u32) + d) as char
    } else {
        (('a' as u32) + d - 10) as char
    }
}

/// One character inside a JSON string: the quote, the backslash and the control characters
/// are escaped (the common ones by letter, the rest as `\u00XX`); all else stands as it is.
pub open spec fn json_escape_char(c: char) -> Seq<char> {
    let u = c as u32;
    if c == '"' {
        seq!['\\', '"']
    } else if c == '\\' {
        seq!['\\', '\\']
    } else if u == 0x08 {
        seq!['\\', 'b']
    } else if u == 0x09 {
        seq!['\\', 't']
    } else if u == 0x0a {
        seq!['\\', 'n']
    } else if u == 0x0c {
        seq!['\\', 'f']
    } else if u == 0x0d {
        seq!['\\', 'r']
    } else if u < 0x20 {
        seq!['\\', 'u', '0', '0', hex_digit(u / 16), hex_digit(u % 16)]
    } else {
        seq![c]
    }
}

/// The escaped characters of a string.
pub open spec fn json_escape(s: Seq<char>) -> Seq<char>
    decreases s.len(),
{
    if s.len() == 0 {
        Seq::empty()
    } else {
        json_escape(s.drop_last()) + json_escape_char(s.last())
    }
}

/// A JSON string literal.
pub open spec fn json_quote(s: Seq<char>) -> Seq<char> {
    seq!['"'] + json_escape(s) + seq!['"']
}

/// The string literals of `items`, separated by commas.
pub open spec fn json_list_body(items: Seq<Seq<char>>) -> Seq<char>
    decreases items.len(),
{
    if items.len() == 0 {
        Seq::empty()
    } else if items.len() == 1 {
        json_quote(items[0])
    } else {
        json_list_body(items.drop_last()) + seq![','] + json_quote(items.last())
    }
}

/// The compact JSON text of a list of strings: `["a","b"]`.
pub open spec fn json_string_list(items: Seq<Seq<char>>) -> Seq<char> {
    seq!['['] + json_list_body(items) + seq![']']
}

/// `serde_json::to_string` of a list of strings. It writes the compact form, escapes each
/// string as `json_escape_char` says, and cannot fail on strings.
#[verifier::external_body]
pub(crate) fn to_json_string_list(items: &Vec<String>) -> (r: String)
    ensures
        r@ == json_string_list(views(items@)),
{
    match serde_json::to_string(items) {
        Ok(s) => s,
        Err(_) => String::new(),
    }
}

/// What `serde_json::from_str::<Vec<String>>` makes of a text: the list, or the error's
/// message.
pub uninterp spec fn parse_string_list(text: Seq<char>) -> Result<Seq<Seq<char>>, Seq<char>>;

/// `serde_json::from_str::<Vec<String>>`, its error rendered as text.
#[verifier::external_body]
pub(crate) fn from_json_string_list(text: &str) -> (r: Result<Vec<String>, String>)
    ensures
        match parse_string_list(text@) {
            Ok(v) => r matches Ok(x) && views(x@) == v,
            Err(e) => r matches Err(m) && m@ == e,
        },
{
    match serde_json::from_str::<Vec<String>>(text) {
        Ok(v) => Ok(v),
        Err(e) => Err(e.to_string()),
    }
}

/// The compact JSON text of a value, as `serde_json` writes it: no white space, the
/// members of an object in the order held, a number as its text.
pub open spec fn json_text(v: JsonV) -> Seq<char>
    decreases v,
{
    match v {
        JsonV::Null => "null"@,
        JsonV::Bool(b) => if b {
            "true"@
        } else {
            "false"@
        },
        JsonV::Number(n) => n,
        JsonV::Str(s) => json_quote(s),
        JsonV::Array(s) => seq!['['] + items_text(s) + seq![']'],
        JsonV::Object(m) => seq!['{'] + members_text(m) + seq!['}'],
    }
}

/// The texts of the items, separated by commas.
pub open spec fn items_text(s: Seq<JsonV>) -> Seq<char>
    decreases s,
{
    if s.len() == 0 {
        Seq::empty()
    } else if s.len() == 1 {
        json_text(s[0])
    } else {
        items_text(s.subrange(0, s.len() - 1)) + seq![','] + json_text(s[s.len() - 1])
    }
}

/// The members' texts, separated by commas.
pub open spec fn members_text(m: Seq<(Seq<char>, JsonV)>) -> Seq<char>
    decreases m,
{
    if m.len() == 0 {
        Seq::empty()
    } else if m.len() == 1 {
        json_quote(m[0].0) + seq![':'] + json_text(m[0].1)
    } else {
        members_text(m.subrange(0, m.len() - 1)) + seq![','] + json_quote(m[m.len() - 1].0) + seq![':']
            + json_text(m[m.len() - 1].1)
    }
}

/// Appends the escaped form of one character.
fn push_escaped_char(out: &mut String, c: char)
    ensures
        final(out)@ == old(out)@ + json_escape_char(c),
{
    let ghost before = out@;
    let u: u32 = c as u32;
    if c == '"' {
        push_char(out, '\\');
        push_char(out, '"');
    } else if c == '\\' {
        push_char(out, '\\');
        push_char(out, '\\');
    } else if u == 0x08 {
        push_char(out, '\\');
        push_char(out, 'b');
    } else if u == 0x09 {
        push_char(out, '\\');
        push_char(out, 't');
    } else if u == 0x0a {
        push_char(out, '\\');
        push_char(out, 'n');
    } else if u == 0x0c {
        push_char(out, '\\');
        push_char(out, 'f');
    } else if u == 0x0d {
        push_char(out, '\\');
        push_char(out, 'r');
    } else if u < 0x20 {
        push_char(out, '\\');
        push_char(out, 'u');
        push_char(out, '0');
        push_char(out, '0');
        let hi: u8 = (u / 16) as u8;
        let lo: u8 = (u % 16) as u8;
        push_char(out, hex_digit_char(hi));
        push_char(out, hex_digit_char(lo));
    } else {
        push_char(out, c);
    }
    assert(out@ =~= before + json_escape_char(c));
}

/// Appends a JSON string literal.
fn push_quoted(out: &mut String, s: &str)
    ensures
        final(out)@ == old(out)@ + json_quote(s@),
{
    let ghost before = out@;
    let cs = chars_of(s);
    push_char(out, '"');
    let mut i: usize = 0;
    while i < cs.len()
        invariant
            i <= cs.len(),
            cs@ == s@,
            out@ == before + seq!['"'] + json_escape(s@.take(i as int)),
        decreases cs.len() - i,
    {
        proof {
            assert(s@.take(i + 1).drop_last() =~= s@.take(i as int));
            assert(s@.take(i + 1).last() == cs@[i as int]);
        }
        push_escaped_char(out, cs[i]);
        i = i + 1;
        proof {
            assert(out@ =~= before + seq!['"'] + json_escape(s@.take(i as int)));
        }
    }
    proof {
        assert(s@.take(i as int) =~= s@);
    }
    push_char(out, '"');
    assert(out@ =~= before + json_quote(s@));
}

/// Appends the compact JSON text of a value.
#[verifier::loop_isolation(false)]
fn push_json(out: &mut String, j: &Json)
    ensures
        final(out)@ == old(out)@ + json_text(j@),
    decreases j,
{
    let ghost before = out@;
    match j {
        Json::Null => {
            out.append("null");
        },
        Json::Bool(b) => {
            if *b {
                out.append("true");
            } else {
                out.append("false");
            }
        },
        Json::Number(n) => {
            out.append(n.as_str());
        },
        Json::Str(s) => {
            push_quoted(out, s.as_str());
        },
        Json::Array(v) => {
            let ghost vs = view_items(v@);
            proof {
                lemma_view_items(v@);
            }
            push_char(out, '[');
            let mut i: usize = 0;
            while i < v.len()
                invariant
                    i <= v.len(),
                    vs.len() == v.len(),
                    out@ == before + seq!['['] + items_text(vs.take(i as int)),
                decreases v.len() - i,
            {
                let ghost mid = out@;
                if i > 0 {
                    push_char(out, ',');
                }
                proof {
                    assert(decreases_to!(*j => v@[i as int]));
                }
                push_json(out, &v[i]);
                proof {
                    let t = vs.take(i + 1);
                    assert(t.subrange(0, t.len() - 1) =~= vs.take(i as int));
                    assert(t[t.len() - 1] == v@[i as int]@);
                    if i == 0 {
                        assert(vs.take(0) =~= Seq::<JsonV>::empty());
                    }
                    assert(out@ =~= before + seq!['['] + items_text(t));
                }
                i = i + 1;
            }
            proof {
                assert(vs.take(i as int) =~= vs);
            }
            push_char(out, ']');
        },
        Json::Object(m) => {
            let ghost ms = view_members(m@);
            proof {
                lemma_view_members(m@);
            }
            push_char(out, '{');
            let mut i: usize = 0;
            while i < m.len()
                invariant
                    i <= m.len(),
                    ms.len() == m.len(),
                    out@ == before + seq!['{'] + members_text(ms.take(i as int)),
                decreases m.len() - i,
            {
                if i > 0 {
                    push_char(out, ',');
                }
                push_quoted(out, m[i].0.as_str());
                push_char(out, ':');
                proof {
                    assert(decreases_to!(*j => m@[i as int].1));
                }
                push_json(out, &m[i].1);
                proof {
                    let t = ms.take(i + 1);
                    assert(t.subrange(0, t.len() - 1) =~= ms.take(i as int));
                    assert(t[t.len() - 1] == (m@[i as int].0@, m@[i as int].1@));
                    if i == 0 {
                        assert(ms.take(0) =~= Seq::<(Seq<char>, JsonV)>::empty());
                    }
                    assert(out@ =~= before + seq!['{'] + members_text(t));
                }
                i = i + 1;
            }
            proof {
                assert(ms.take(i as int) =~= ms);
            }
            push_char(out, '}');
        },
    }
    assert(out@ =~= before + json_text(j@));
}

/// The compact JSON text of a value.
pub fn to_json_text(j: &Json) -> (r: String)
    ensures
        r@ == json_text(j@),
{
    let mut out = String::new();
    push_json(&mut out, j);
    assert(out@ =~= json_text(j@));
    out
}

} // verus!
