//! Lines and words of text, as `str::lines` and `str::split_whitespace` cut them.
use vstd::prelude::*;
use crate::text::{chars_of, push_char, split_on, split_spec, views, string_of, push_string};
use crate::title::is_ws;

verus! {

/// `s` without one trailing carriage return.
pub open spec fn strip_cr(s: Seq<char>) -> Seq<char> {
    if s.len() > 0 && s.last() == '\r' {
        s.drop_last()
    } else {
        s
    }
}

/// The lines of `s`: cut at each LF, a CR before the LF dropped, and no empty last line
/// after a final LF. A CR at the very end stays.
pub open spec fn lines_spec(s: Seq<char>) -> Seq<Seq<char>> {
    let parts = split_spec(s, '\n');
    let body = parts.drop_last().map_values(|p: Seq<char>| strip_cr(p));
    if parts.last().len() == 0 {
        body
    } else {
        body.push(parts.last())
    }
}

fn strip_cr_exec(s: &String) -> (r: String)
    ensures
        r@ == strip_cr(s@),
{
    let cs = chars_of(s.as_str());
    if cs.len() > 0 && cs[cs.len() - 1] == '\r' {
        let r = string_of(&cs, 0, cs.len() - 1);
        proof {
            assert(cs@.subrange(0, cs.len() - 1) =~= s@.drop_last());
        }
        r
    } else {
        s.clone()
    }
}

/// `str::lines`.
pub fn lines(s: &str) -> (r: Vec<String>)
    ensures
        views(r@) == lines_spec(s@),
{
    let parts = split_on(s, '\n');
    proof {
        crate::text::lemma_split_nonempty(s@, '\n');
    }
    let ghost pv = views(parts@);
    let n = parts.len();
    let mut out: Vec<String> = Vec::new();
    let mut i: usize = 0;
    while i + 1 < n
        invariant
            n == parts.len(),
            n >= 1,
            i < n,
            pv == views(parts@),
            views(out@) == pv.drop_last().take(i as int).map_values(|p: Seq<char>| strip_cr(p)),
        decreases n - i,
    {
        let l = strip_cr_exec(&parts[i]);
        push_string(&mut out, l);
        proof {
            assert(pv.drop_last().take(i + 1).map_values(|p: Seq<char>| strip_cr(p)) =~= pv.drop_last().take(
                i as int,
            ).map_values(|p: Seq<char>| strip_cr(p)).push(strip_cr(pv[i as int])));
        }
        i = i + 1;
    }
    proof {
        assert(pv.drop_last().take(i as int) =~= pv.drop_last());
    }
    if parts[n - 1].as_str().is_empty() {
        out
    } else {
        push_string(&mut out, parts[n - 1].clone());
        out
    }
}

/// `s` cut at every white-space character: as many pieces as separators plus one.
pub open spec fn ws_pieces(s: Seq<char>) -> Seq<Seq<char>>
    decreases s.len(),
{
    if s.len() == 0 {
        seq![Seq::<char>::empty()]
    } else {
        let p = ws_pieces(s.drop_last());
        if is_ws(s.last()) {
            p.push(Seq::<char>::empty())
        } else {
            p.update(p.len() - 1, p.last().push(s.last()))
        }
    }
}

pub proof fn lemma_ws_pieces_nonempty(s: Seq<char>)
    ensures
        ws_pieces(s).len() >= 1,
    decreases s.len(),
{
    if s.len() > 0 {
        lemma_ws_pieces_nonempty(s.drop_last());
    }
}

/// The non-empty pieces, in order.
pub open spec fn non_empty(ps: Seq<Seq<char>>) -> Seq<Seq<char>>
    decreases ps.len(),
{
    if ps.len() == 0 {
        ps
    } else if ps.last().len() == 0 {
        non_empty(ps.drop_last())
    } else {
        non_empty(ps.drop_last()).push(ps.last())
    }
}

/// The words of `s`: its maximal runs of characters that are not white space.
pub open spec fn words_spec(s: Seq<char>) -> Seq<Seq<char>> {
    non_empty(ws_pieces(s))
}

fn is_white(c: char) -> (r: bool)
    ensures
        r == is_ws(c),
{
    let u = c as u32;
    (0x09 <= u && u <= 0x0d) || u == 0x20 || u == 0x85 || u == 0xa0 || u == 0x1680 || (0x2000
        <= u && u <= 0x200a) || u == 0x2028 || u == 0x2029 || u == 0x202f || u == 0x205f || u
        == 0x3000
}

/// The white-space pieces of `s`.
fn pieces_of(s: &str) -> (r: Vec<String>)
    ensures
        views(r@) == ws_pieces(s@),
{
    let cs = chars_of(s);
    let mut parts: Vec<String> = Vec::new();
    let mut cur = String::new();
    let mut i: usize = 0;
    while i < cs.len()
        invariant
            i <= cs.len(),
            cs@ == s@,
            views(parts@).push(cur@) == ws_pieces(s@.take(i as int)),
        decreases cs.len() - i,
    {
        let c = cs[i];
        proof {
            lemma_ws_pieces_nonempty(s@.take(i as int));
            assert(s@.take(i as int + 1).drop_last() =~= s@.take(i as int));
            assert(s@.take(i as int + 1).last() == c);
        }
        if is_white(c) {
            let done = cur;
            proof {
                assert(views(parts@.push(done)) =~= views(parts@).push(done@));
            }
            parts.push(done);
            cur = String::new();
            proof {
                assert(views(parts@).push(cur@) =~= ws_pieces(s@.take(i as int + 1)));
            }
        } else {
            let ghost before = cur@;
            push_char(&mut cur, c);
            proof {
                let p = ws_pieces(s@.take(i as int));
                assert(p.last() == before);
                assert(views(parts@).push(cur@) =~= p.update(p.len() - 1, p.last().push(c)));
            }
        }
        i = i + 1;
    }
    proof {
        assert(s@.take(cs.len() as int) =~= s@);
        assert(views(parts@.push(cur)) =~= views(parts@).push(cur@));
    }
    parts.push(cur);
    parts
}

/// `str::split_whitespace`.
pub fn words(s: &str) -> (r: Vec<String>)
    ensures
        views(r@) == words_spec(s@),
{
    let ps = pieces_of(s);
    let ghost pv = views(ps@);
    let mut out: Vec<String> = Vec::new();
    let mut i: usize = 0;
    proof {
        assert(pv.take(0) =~= Seq::<Seq<char>>::empty());
        assert(views(out@) =~= Seq::<Seq<char>>::empty());
    }
    while i < ps.len()
        invariant
            i <= ps.len(),
            pv == views(ps@),
            views(out@) == non_empty(pv.take(i as int)),
        decreases ps.len() - i,
    {
        proof {
            assert(pv.take(i + 1).drop_last() =~= pv.take(i as int));
            assert(pv.take(i + 1).last() == ps@[i as int]@);
        }
        if !ps[i].as_str().is_empty() {
            push_string(&mut out, ps[i].clone());
        }
        i = i + 1;
    }
    proof {
        assert(pv.take(i as int) =~= pv);
    }
    out
}

/// The leading white space of `s`.
pub open spec fn indent_spec(s: Seq<char>) -> Seq<char>
    decreases s.len(),
{
    if s.len() > 0 && is_ws(s[0]) {
        seq![s[0]] + indent_spec(s.drop_first())
    } else {
        Seq::empty()
    }
}

/// The leading white space of a line.
pub fn indent(s: &str) -> (r: String)
    ensures
        r@ == indent_spec(s@),
{
    let cs = chars_of(s);
    let mut i: usize = 0;
    proof {
        assert(s@.skip(0) =~= s@);
        assert(s@.take(0) + indent_spec(s@) =~= indent_spec(s@));
    }
    while i < cs.len() && is_white(cs[i])
        invariant
            i <= cs.len(),
            cs@ == s@,
            forall|j: int| 0 <= j < i ==> is_ws(#[trigger] s@[j]),
            s@.take(i as int) + indent_spec(s@.skip(i as int)) == indent_spec(s@),
        decreases cs.len() - i,
    {
        proof {
            let t = s@.skip(i as int);
            assert(t[0] == cs@[i as int]);
            assert(t.drop_first() =~= s@.skip(i + 1));
            assert(s@.take(i + 1) =~= s@.take(i as int) + seq![t[0]]);
        }
        i = i + 1;
    }
    proof {
        assert(indent_spec(s@.skip(i as int)) =~= Seq::<char>::empty());
        assert(s@.take(i as int) =~= cs@.subrange(0, i as int));
    }
    string_of(&cs, 0, i)
}

/// The strings of `ws` joined with `sep` between them.
pub open spec fn join_spec(ws: Seq<Seq<char>>, sep: Seq<char>) -> Seq<char>
    decreases ws.len(),
{
    if ws.len() == 0 {
        Seq::empty()
    } else if ws.len() == 1 {
        ws[0]
    } else {
        join_spec(ws.drop_last(), sep) + sep + ws.last()
    }
}

/// `[String]::join`.
pub fn join_with(ws: &Vec<String>, sep: &str) -> (r: String)
    ensures
        r@ == join_spec(views(ws@), sep@),
{
    let mut out = String::new();
    let ghost wv = views(ws@);
    let mut i: usize = 0;
    proof {
        assert(wv.take(0) =~= Seq::<Seq<char>>::empty());
    }
    while i < ws.len()
        invariant
            i <= ws.len(),
            wv == views(ws@),
            out@ == join_spec(wv.take(i as int), sep@),
        decreases ws.len() - i,
    {
        proof {
            assert(wv.take(i + 1).drop_last() =~= wv.take(i as int));
            assert(wv.take(i + 1).last() == ws@[i as int]@);
            if i == 0 {
                assert(wv.take(1) =~= seq![ws@[0]@]);
            }
        }
        if i > 0 {
            out.append(sep);
        }
        out.append(ws[i].as_str());
        i = i + 1;
    }
    proof {
        assert(wv.take(i as int) =~= wv);
    }
    out
}

} // verus!
