//! JSON values as the settings layers hold them.
//!
//! Objects keep their members sorted by key, with no key twice, which is the canonical
//! form a settings file has once parsed. Numbers are kept as their canonical text.
use vstd::prelude::*;

use crate::keys::{
    compare_keys, key_lt, lemma_key_lt_asymmetric, lemma_key_lt_irreflexive, lemma_key_lt_total,
    lemma_key_lt_transitive,
};

verus! {

/// A JSON value.
#[derive(Debug, PartialEq, Eq)]
pub enum Json {
    Null,
    Bool(bool),
    /// The number's canonical text, such as `8` or `-1.5`.
    Number(String),
    Str(String),
    Array(Vec<Json>),
    /// Members sorted by key, each key once.
    Object(Vec<(String, Json)>),
}

/// The mathematical content of a [`Json`] value.
pub enum JsonV {
    Null,
    Bool(bool),
    Number(Seq<char>),
    Str(Seq<char>),
    Array(Seq<JsonV>),
    Object(Seq<(Seq<char>, JsonV)>),
}

pub open spec fn view_json(j: Json) -> JsonV
    decreases j,
{
    match j {
        Json::Null => JsonV::Null,
        Json::Bool(b) => JsonV::Bool(b),
        Json::Number(n) => JsonV::Number(n@),
        Json::Str(s) => JsonV::Str(s@),
        Json::Array(v) => JsonV::Array(view_items(v@)),
        Json::Object(m) => JsonV::Object(view_members(m@)),
    }
}

pub open spec fn view_items(s: Seq<Json>) -> Seq<JsonV>
    decreases s,
{
    if s.len() == 0 {
        Seq::empty()
    } else {
        view_items(s.subrange(0, s.len() - 1)).push(view_json(s[s.len() - 1]))
    }
}

pub open spec fn view_members(s: Seq<(String, Json)>) -> Seq<(Seq<char>, JsonV)>
    decreases s,
{
    if s.len() == 0 {
        Seq::empty()
    } else {
        view_members(s.subrange(0, s.len() - 1)).push(
            (s[s.len() - 1].0@, view_json(s[s.len() - 1].1)),
        )
    }
}

impl View for Json {
    type V = JsonV;

    open spec fn view(&self) -> JsonV {
        view_json(*self)
    }
}

pub proof fn lemma_view_items(s: Seq<Json>)
    ensures
        view_items(s).len() == s.len(),
        forall|i: int| 0 <= i < s.len() ==> #[trigger] view_items(s)[i] == view_json(s[i]),
    decreases s.len(),
{
    if s.len() > 0 {
        lemma_view_items(s.subrange(0, s.len() - 1));
    }
}

pub proof fn lemma_view_members(s: Seq<(String, Json)>)
    ensures
        view_members(s).len() == s.len(),
        forall|i: int|
            0 <= i < s.len() ==> #[trigger] view_members(s)[i] == (s[i].0@, view_json(s[i].1)),
    decreases s.len(),
{
    if s.len() > 0 {
        lemma_view_members(s.subrange(0, s.len() - 1));
    }
}

} // verus!

verus! {

/// Members are in strictly increasing key order (so no key occurs twice).
pub open spec fn sorted_members(m: Seq<(Seq<char>, JsonV)>) -> bool {
    forall|i: int, j: int| 0 <= i < j < m.len() ==> key_lt(#[trigger] m[i].0, #[trigger] m[j].0)
}

/// Every object, at every depth, holds its members in key order.
pub open spec fn wf_json(v: JsonV) -> bool
    decreases v,
{
    match v {
        JsonV::Array(s) => wf_items(s),
        JsonV::Object(m) => sorted_members(m) && wf_member_values(m),
        _ => true,
    }
}

pub open spec fn wf_items(s: Seq<JsonV>) -> bool
    decreases s,
{
    if s.len() == 0 {
        true
    } else {
        wf_items(s.subrange(0, s.len() - 1)) && wf_json(s[s.len() - 1])
    }
}

pub open spec fn wf_member_values(m: Seq<(Seq<char>, JsonV)>) -> bool
    decreases m,
{
    if m.len() == 0 {
        true
    } else {
        wf_member_values(m.subrange(0, m.len() - 1)) && wf_json(m[m.len() - 1].1)
    }
}

pub proof fn lemma_wf_items(s: Seq<JsonV>)
    ensures
        wf_items(s) <==> forall|i: int| 0 <= i < s.len() ==> #[trigger] wf_json(s[i]),
    decreases s.len(),
{
    if s.len() > 0 {
        let t = s.subrange(0, s.len() - 1);
        lemma_wf_items(t);
        assert(wf_items(s) == (wf_items(t) && wf_json(s[s.len() - 1])));
        if forall|i: int| 0 <= i < s.len() ==> #[trigger] wf_json(s[i]) {
            assert forall|i: int| 0 <= i < t.len() implies #[trigger] wf_json(t[i]) by {
                assert(t[i] == s[i]);
            }
        }
        if wf_items(s) {
            assert forall|i: int| 0 <= i < s.len() implies #[trigger] wf_json(s[i]) by {
                if i < t.len() {
                    assert(t[i] == s[i]);
                }
            }
        }
    }
}

pub proof fn lemma_wf_member_values(m: Seq<(Seq<char>, JsonV)>)
    ensures
        wf_member_values(m) <==> forall|i: int| 0 <= i < m.len() ==> #[trigger] wf_json(m[i].1),
    decreases m.len(),
{
    if m.len() > 0 {
        let t = m.subrange(0, m.len() - 1);
        lemma_wf_member_values(t);
        assert(wf_member_values(m) == (wf_member_values(t) && wf_json(m[m.len() - 1].1)));
        if forall|i: int| 0 <= i < m.len() ==> #[trigger] wf_json(m[i].1) {
            assert forall|i: int| 0 <= i < t.len() implies #[trigger] wf_json(t[i].1) by {
                assert(t[i] == m[i]);
            }
        }
        if wf_member_values(m) {
            assert forall|i: int| 0 <= i < m.len() implies #[trigger] wf_json(m[i].1) by {
                if i < t.len() {
                    assert(t[i] == m[i]);
                }
            }
        }
    }
}

/// The value stored under `k`, found from the front.
pub open spec fn lookup(m: Seq<(Seq<char>, JsonV)>, k: Seq<char>) -> Option<JsonV>
    decreases m.len(),
{
    if m.len() == 0 {
        None
    } else if m[0].0 == k {
        Some(m[0].1)
    } else {
        lookup(m.subrange(1, m.len() as int), k)
    }
}

/// The member `k` of an object, `None` for a missing key or a value that is no object.
pub open spec fn member(v: JsonV, k: Seq<char>) -> Option<JsonV> {
    match v {
        JsonV::Object(m) => lookup(m, k),
        _ => None,
    }
}

/// Every key of `m` sorts after `lo`.
pub open spec fn keys_above(m: Seq<(Seq<char>, JsonV)>, lo: Seq<char>) -> bool {
    forall|i: int| 0 <= i < m.len() ==> key_lt(lo, #[trigger] m[i].0)
}

pub proof fn lemma_lookup_below(m: Seq<(Seq<char>, JsonV)>, k: Seq<char>)
    requires
        keys_above(m, k),
    ensures
        lookup(m, k) is None,
    decreases m.len(),
{
    if m.len() > 0 {
        lemma_key_lt_irreflexive(k);
        assert(key_lt(k, m[0].0));
        let t = m.subrange(1, m.len() as int);
        assert forall|i: int| 0 <= i < t.len() implies key_lt(k, #[trigger] t[i].0) by {
            assert(t[i] == m[i + 1]);
        }
        lemma_lookup_below(t, k);
    }
}

pub proof fn lemma_lookup_index(m: Seq<(Seq<char>, JsonV)>, idx: int)
    requires
        sorted_members(m),
        0 <= idx < m.len(),
    ensures
        lookup(m, m[idx].0) == Some(m[idx].1),
    decreases idx,
{
    if idx > 0 {
        let t = m.subrange(1, m.len() as int);
        assert(key_lt(m[0].0, m[idx].0));
        lemma_key_lt_irreflexive(m[idx].0);
        assert(sorted_members(t)) by {
            assert forall|i: int, j: int| 0 <= i < j < t.len() implies key_lt(
                #[trigger] t[i].0,
                #[trigger] t[j].0,
            ) by {
                assert(t[i] == m[i + 1]);
                assert(t[j] == m[j + 1]);
            }
        }
        assert(t[idx - 1] == m[idx]);
        lemma_lookup_index(t, idx - 1);
    }
}

pub proof fn lemma_lookup_some(m: Seq<(Seq<char>, JsonV)>, k: Seq<char>) -> (idx: int)
    requires
        lookup(m, k) is Some,
    ensures
        0 <= idx < m.len(),
        m[idx].0 == k,
        lookup(m, k) == Some(m[idx].1),
    decreases m.len(),
{
    if m[0].0 == k {
        0
    } else {
        let t = m.subrange(1, m.len() as int);
        let j = lemma_lookup_some(t, k);
        assert(t[j] == m[j + 1]);
        j + 1
    }
}

pub proof fn lemma_lookup_cons(x: (Seq<char>, JsonV), rest: Seq<(Seq<char>, JsonV)>, k: Seq<char>)
    ensures
        lookup(seq![x] + rest, k) == (if x.0 == k {
            Some(x.1)
        } else {
            lookup(rest, k)
        }),
{
    let s = seq![x] + rest;
    assert(s[0] == x);
    assert(s.subrange(1, s.len() as int) =~= rest);
}

impl Json {
    pub open spec fn wf(&self) -> bool {
        wf_json(self@)
    }

    /// `{}`
    pub fn object() -> (r: Json)
        ensures
            r@ == JsonV::Object(Seq::empty()),
            r.wf(),
    {
        let r = Json::Object(Vec::new());
        proof {
            lemma_view_members(Seq::<(String, Json)>::empty());
            assert(view_members(Seq::<(String, Json)>::empty()) =~= Seq::empty());
            lemma_wf_member_values(Seq::<(Seq<char>, JsonV)>::empty());
        }
        r
    }

    /// A string value.
    pub fn string(s: &str) -> (r: Json)
        ensures
            r@ == JsonV::Str(s@),
            r.wf(),
    {
        Json::Str(s.to_owned())
    }

    /// A number, given by its canonical text.
    pub fn number(text: &str) -> (r: Json)
        ensures
            r@ == JsonV::Number(text@),
            r.wf(),
    {
        Json::Number(text.to_owned())
    }

    /// An array of the given items, in order.
    pub fn array(items: Vec<Json>) -> (r: Json)
        ensures
            r@ == JsonV::Array(view_items(items@)),
            (forall|i: int| 0 <= i < items.len() ==> #[trigger] items@[i].wf()) ==> r.wf(),
    {
        proof {
            lemma_view_items(items@);
            lemma_wf_items(view_items(items@));
            if forall|i: int| 0 <= i < items.len() ==> #[trigger] items@[i].wf() {
                assert forall|i: int| 0 <= i < items.len() implies #[trigger] wf_json(
                    view_items(items@)[i],
                ) by {
                    assert(items@[i].wf());
                }
            }
        }
        Json::Array(items)
    }

    /// A value with the same content.
    #[verifier::loop_isolation(false)]
    pub fn copy(&self) -> (r: Json)
        ensures
            r@ == self@,
        decreases self,
    {
        match self {
            Json::Null => Json::Null,
            Json::Bool(b) => Json::Bool(*b),
            Json::Number(n) => Json::Number(n.clone()),
            Json::Str(s) => Json::Str(s.clone()),
            Json::Array(v) => {
                let mut out: Vec<Json> = Vec::new();
                let mut i: usize = 0;
                while i < v.len()
                    invariant
                        i <= v.len(),
                        out.len() == i,
                        forall|k: int| 0 <= k < i ==> #[trigger] out@[k]@ == v@[k]@,
                    decreases v.len() - i,
                {
                    proof {
                        assert(decreases_to!(*self => v@[i as int]));
                    }
                    let c = v[i].copy();
                    out.push(c);
                    i = i + 1;
                }
                proof {
                    lemma_view_items(v@);
                    lemma_view_items(out@);
                    assert(out.len() == v.len());
                    assert forall|k: int| 0 <= k < v.len() implies view_items(out@)[k]
                        == view_items(v@)[k] by {
                        assert(out@[k]@ == v@[k]@);
                    }
                    assert(view_items(out@) =~= view_items(v@));
                }
                Json::Array(out)
            },
            Json::Object(m) => {
                let mut out: Vec<(String, Json)> = Vec::new();
                let mut i: usize = 0;
                while i < m.len()
                    invariant
                        i <= m.len(),
                        out.len() == i,
                        forall|k: int|
                            0 <= k < i ==> (#[trigger] out@[k]).0@ == m@[k].0@ && out@[k].1@
                                == m@[k].1@,
                    decreases m.len() - i,
                {
                    let key = m[i].0.clone();
                    proof {
                        assert(decreases_to!(*self => m@[i as int].1));
                    }
                    let val = m[i].1.copy();
                    out.push((key, val));
                    i = i + 1;
                }
                proof {
                    lemma_view_members(m@);
                    lemma_view_members(out@);
                    assert(view_members(out@) =~= view_members(m@));
                }
                Json::Object(out)
            },
        }
    }

    /// Whether two values have the same content.
    #[verifier::loop_isolation(false)]
    pub fn equals(&self, other: &Json) -> (r: bool)
        ensures
            r == (self@ == other@),
        decreases self,
    {
        match (self, other) {
            (Json::Null, Json::Null) => true,
            (Json::Bool(a), Json::Bool(b)) => *a == *b,
            (Json::Number(a), Json::Number(b)) => {
                let r = *a == *b;
                assert(r == (self@ == other@));
                r
            },
            (Json::Str(a), Json::Str(b)) => {
                let r = *a == *b;
                assert(r == (self@ == other@));
                r
            },
            (Json::Array(a), Json::Array(b)) => {
                proof {
                    lemma_view_items(a@);
                    lemma_view_items(b@);
                }
                if a.len() != b.len() {
                    return false;
                }
                let mut i: usize = 0;
                while i < a.len()
                    invariant
                        i <= a.len(),
                        a.len() == b.len(),
                        view_items(a@).len() == a.len(),
                        view_items(b@).len() == b.len(),
                        forall|k: int| 0 <= k < a.len() ==> #[trigger] view_items(a@)[k] == a@[k]@,
                        forall|k: int| 0 <= k < b.len() ==> #[trigger] view_items(b@)[k] == b@[k]@,
                        forall|k: int| 0 <= k < i ==> #[trigger] a@[k]@ == b@[k]@,
                    decreases a.len() - i,
                {
                    proof {
                        assert(decreases_to!(*a => a[i as int]));
                    }
                    if !a[i].equals(&b[i]) {
                        assert(view_items(a@)[i as int] != view_items(b@)[i as int]);
                        return false;
                    }
                    i = i + 1;
                }
                assert(view_items(a@) =~= view_items(b@));
                true
            },
            (Json::Object(a), Json::Object(b)) => {
                proof {
                    lemma_view_members(a@);
                    lemma_view_members(b@);
                }
                if a.len() != b.len() {
                    return false;
                }
                let mut i: usize = 0;
                while i < a.len()
                    invariant
                        i <= a.len(),
                        a.len() == b.len(),
                        view_members(a@).len() == a.len(),
                        view_members(b@).len() == b.len(),
                        forall|k: int|
                            0 <= k < a.len() ==> #[trigger] view_members(a@)[k] == (
                                a@[k].0@,
                                a@[k].1@,
                            ),
                        forall|k: int|
                            0 <= k < b.len() ==> #[trigger] view_members(b@)[k] == (
                                b@[k].0@,
                                b@[k].1@,
                            ),
                        forall|k: int|
                            0 <= k < i ==> #[trigger] view_members(a@)[k] == view_members(b@)[k],
                    decreases a.len() - i,
                {
                    if a[i].0 != b[i].0 {
                        assert(view_members(a@)[i as int] != view_members(b@)[i as int]);
                        return false;
                    }
                    proof {
                        assert(decreases_to!(*a => a[i as int]));
                    }
                    if !a[i].1.equals(&b[i].1) {
                        assert(view_members(a@)[i as int] != view_members(b@)[i as int]);
                        return false;
                    }
                    i = i + 1;
                }
                assert(view_members(a@) =~= view_members(b@));
                true
            },
            _ => {
                assert(self@ != other@);
                false
            },
        }
    }
}

} // verus!

verus! {

/// Deep merge of two values: objects merge key by key, arrays concatenate without
/// repeats, anything else is replaced by `b`.
pub open spec fn merge_json(a: JsonV, b: JsonV) -> JsonV
    decreases a, 0nat,
{
    match a {
        JsonV::Object(ma) => match b {
            JsonV::Object(mb) => JsonV::Object(merge_members(ma, mb)),
            _ => b,
        },
        JsonV::Array(xa) => match b {
            JsonV::Array(xb) => JsonV::Array(dedup(xa + xb)),
            _ => b,
        },
        _ => b,
    }
}

/// The members of two key-sorted objects merged in key order; a key held by both gets
/// the merge of the two values.
pub open spec fn merge_members(ma: Seq<(Seq<char>, JsonV)>, mb: Seq<(Seq<char>, JsonV)>) -> Seq<
    (Seq<char>, JsonV),
>
    decreases ma, mb.len(),
{
    if ma.len() == 0 {
        mb
    } else if mb.len() == 0 {
        ma
    } else if key_lt(ma[0].0, mb[0].0) {
        seq![ma[0]] + merge_members(ma.subrange(1, ma.len() as int), mb)
    } else if ma[0].0 == mb[0].0 {
        seq![(ma[0].0, merge_json(ma[0].1, mb[0].1))] + merge_members(
            ma.subrange(1, ma.len() as int),
            mb.subrange(1, mb.len() as int),
        )
    } else {
        seq![mb[0]] + merge_members(ma, mb.subrange(1, mb.len() as int))
    }
}

/// The elements of `s` in order, each kept only where it first occurs.
pub open spec fn dedup(s: Seq<JsonV>) -> Seq<JsonV>
    decreases s.len(),
{
    if s.len() == 0 {
        Seq::empty()
    } else {
        let d = dedup(s.drop_last());
        if d.contains(s.last()) {
            d
        } else {
            d.push(s.last())
        }
    }
}

/// What a merged object holds under a key, given what each side holds there.
pub open spec fn merge_found(x: Option<JsonV>, y: Option<JsonV>) -> Option<JsonV> {
    match x {
        Some(a) => match y {
            Some(b) => Some(merge_json(a, b)),
            None => Some(a),
        },
        None => y,
    }
}

pub proof fn lemma_sorted_tail(m: Seq<(Seq<char>, JsonV)>)
    requires
        sorted_members(m),
        m.len() > 0,
    ensures
        sorted_members(m.subrange(1, m.len() as int)),
        keys_above(m.subrange(1, m.len() as int), m[0].0),
{
    let t = m.subrange(1, m.len() as int);
    assert forall|i: int, j: int| 0 <= i < j < t.len() implies key_lt(
        #[trigger] t[i].0,
        #[trigger] t[j].0,
    ) by {
        assert(t[i] == m[i + 1]);
        assert(t[j] == m[j + 1]);
    }
    assert forall|i: int| 0 <= i < t.len() implies key_lt(m[0].0, #[trigger] t[i].0) by {
        assert(t[i] == m[i + 1]);
    }
}

pub proof fn lemma_sorted_cons(x: (Seq<char>, JsonV), rest: Seq<(Seq<char>, JsonV)>)
    requires
        sorted_members(rest),
        keys_above(rest, x.0),
    ensures
        sorted_members(seq![x] + rest),
{
    let s = seq![x] + rest;
    assert forall|i: int, j: int| 0 <= i < j < s.len() implies key_lt(
        #[trigger] s[i].0,
        #[trigger] s[j].0,
    ) by {
        assert(s[j] == rest[j - 1]);
        if i > 0 {
            assert(s[i] == rest[i - 1]);
        }
    }
}

pub proof fn lemma_keys_above_weaken(m: Seq<(Seq<char>, JsonV)>, lo: Seq<char>, lower: Seq<char>)
    requires
        keys_above(m, lo),
        key_lt(lower, lo),
    ensures
        keys_above(m, lower),
{
    assert forall|i: int| 0 <= i < m.len() implies key_lt(lower, #[trigger] m[i].0) by {
        lemma_key_lt_transitive(lower, lo, m[i].0);
    }
}

pub proof fn lemma_keys_above_tail(m: Seq<(Seq<char>, JsonV)>, lo: Seq<char>)
    requires
        keys_above(m, lo),
        m.len() > 0,
    ensures
        keys_above(m.subrange(1, m.len() as int), lo),
{
    let t = m.subrange(1, m.len() as int);
    assert forall|i: int| 0 <= i < t.len() implies key_lt(lo, #[trigger] t[i].0) by {
        assert(t[i] == m[i + 1]);
    }
}

/// Every key of the merge is a key of one side, so a bound below both sides bounds it.
pub proof fn lemma_merge_members_above(
    ma: Seq<(Seq<char>, JsonV)>,
    mb: Seq<(Seq<char>, JsonV)>,
    lo: Seq<char>,
)
    requires
        keys_above(ma, lo),
        keys_above(mb, lo),
    ensures
        keys_above(merge_members(ma, mb), lo),
    decreases ma.len() + mb.len(),
{
    let r = merge_members(ma, mb);
    if ma.len() == 0 || mb.len() == 0 {
    } else {
        let ta = ma.subrange(1, ma.len() as int);
        let tb = mb.subrange(1, mb.len() as int);
        if key_lt(ma[0].0, mb[0].0) {
            lemma_keys_above_tail(ma, lo);
            lemma_merge_members_above(ta, mb, lo);
            let rest = merge_members(ta, mb);
            assert forall|i: int| 0 <= i < r.len() implies key_lt(lo, #[trigger] r[i].0) by {
                if i > 0 {
                    assert(r[i] == rest[i - 1]);
                }
            }
        } else if ma[0].0 == mb[0].0 {
            lemma_keys_above_tail(ma, lo);
            lemma_keys_above_tail(mb, lo);
            lemma_merge_members_above(ta, tb, lo);
            let rest = merge_members(ta, tb);
            assert forall|i: int| 0 <= i < r.len() implies key_lt(lo, #[trigger] r[i].0) by {
                if i > 0 {
                    assert(r[i] == rest[i - 1]);
                }
            }
        } else {
            lemma_keys_above_tail(mb, lo);
            lemma_merge_members_above(ma, tb, lo);
            let rest = merge_members(ma, tb);
            assert forall|i: int| 0 <= i < r.len() implies key_lt(lo, #[trigger] r[i].0) by {
                if i > 0 {
                    assert(r[i] == rest[i - 1]);
                }
            }
        }
    }
}

/// Merging two key-sorted member lists gives a key-sorted list.
pub proof fn lemma_merge_members_sorted(ma: Seq<(Seq<char>, JsonV)>, mb: Seq<(Seq<char>, JsonV)>)
    requires
        sorted_members(ma),
        sorted_members(mb),
    ensures
        sorted_members(merge_members(ma, mb)),
    decreases ma.len() + mb.len(),
{
    if ma.len() == 0 || mb.len() == 0 {
    } else {
        let ta = ma.subrange(1, ma.len() as int);
        let tb = mb.subrange(1, mb.len() as int);
        lemma_sorted_tail(ma);
        lemma_sorted_tail(mb);
        lemma_key_lt_total(ma[0].0, mb[0].0);
        if key_lt(ma[0].0, mb[0].0) {
            lemma_merge_members_sorted(ta, mb);
            lemma_keys_above_weaken(tb, mb[0].0, ma[0].0);
            assert(keys_above(mb, ma[0].0)) by {
                assert forall|i: int| 0 <= i < mb.len() implies key_lt(ma[0].0, #[trigger] mb[i].0) by {
                    if i > 0 {
                        assert(mb[i] == tb[i - 1]);
                    }
                }
            }
            lemma_merge_members_above(ta, mb, ma[0].0);
            lemma_sorted_cons(ma[0], merge_members(ta, mb));
        } else if ma[0].0 == mb[0].0 {
            lemma_merge_members_sorted(ta, tb);
            lemma_merge_members_above(ta, tb, ma[0].0);
            lemma_sorted_cons((ma[0].0, merge_json(ma[0].1, mb[0].1)), merge_members(ta, tb));
        } else {
            lemma_merge_members_sorted(ma, tb);
            assert(keys_above(ma, mb[0].0)) by {
                assert forall|i: int| 0 <= i < ma.len() implies key_lt(mb[0].0, #[trigger] ma[i].0) by {
                    if i > 0 {
                        assert(ma[i] == ta[i - 1]);
                        lemma_key_lt_transitive(mb[0].0, ma[0].0, ma[i].0);
                    }
                }
            }
            lemma_merge_members_above(ma, tb, mb[0].0);
            lemma_sorted_cons(mb[0], merge_members(ma, tb));
        }
    }
}

/// Looking a key up in a merged object: what the merge of what each side holds there gives.
pub proof fn lemma_merge_members_lookup(
    ma: Seq<(Seq<char>, JsonV)>,
    mb: Seq<(Seq<char>, JsonV)>,
    k: Seq<char>,
)
    requires
        sorted_members(ma),
        sorted_members(mb),
    ensures
        lookup(merge_members(ma, mb), k) == merge_found(lookup(ma, k), lookup(mb, k)),
    decreases ma.len() + mb.len(),
{
    if ma.len() == 0 {
    } else if mb.len() == 0 {
    } else {
        let ta = ma.subrange(1, ma.len() as int);
        let tb = mb.subrange(1, mb.len() as int);
        lemma_sorted_tail(ma);
        lemma_sorted_tail(mb);
        lemma_key_lt_total(ma[0].0, mb[0].0);
        if key_lt(ma[0].0, mb[0].0) {
            lemma_merge_members_lookup(ta, mb, k);
            lemma_lookup_cons(ma[0], merge_members(ta, mb), k);
            if k == ma[0].0 {
                lemma_keys_above_weaken(tb, mb[0].0, ma[0].0);
                assert(keys_above(mb, k)) by {
                    assert forall|i: int| 0 <= i < mb.len() implies key_lt(k, #[trigger] mb[i].0) by {
                        if i > 0 {
                            assert(mb[i] == tb[i - 1]);
                        }
                    }
                }
                lemma_lookup_below(mb, k);
            }
        } else if ma[0].0 == mb[0].0 {
            lemma_merge_members_lookup(ta, tb, k);
            lemma_lookup_cons((ma[0].0, merge_json(ma[0].1, mb[0].1)), merge_members(ta, tb), k);
        } else {
            lemma_merge_members_lookup(ma, tb, k);
            lemma_lookup_cons(mb[0], merge_members(ma, tb), k);
            if k == mb[0].0 {
                assert(keys_above(ma, k)) by {
                    assert forall|i: int| 0 <= i < ma.len() implies key_lt(k, #[trigger] ma[i].0) by {
                        if i > 0 {
                            assert(ma[i] == ta[i - 1]);
                            lemma_key_lt_transitive(k, ma[0].0, ma[i].0);
                        }
                    }
                }
                lemma_lookup_below(ma, k);
            }
        }
    }
}

} // verus!

verus! {

pub proof fn lemma_dedup_contains(s: Seq<JsonV>)
    ensures
        forall|x: JsonV| #[trigger] dedup(s).contains(x) <==> s.contains(x),
        dedup(s).no_duplicates(),
    decreases s.len(),
{
    if s.len() > 0 {
        let t = s.drop_last();
        let y = s.last();
        lemma_dedup_contains(t);
        let d = dedup(t);
        assert forall|x: JsonV| #[trigger] s.contains(x) <==> (t.contains(x) || x == y) by {
            if s.contains(x) {
                let i = choose|i: int| 0 <= i < s.len() && s[i] == x;
                if i < s.len() - 1 {
                    assert(t[i] == x);
                }
            }
            if t.contains(x) {
                let i = choose|i: int| 0 <= i < t.len() && t[i] == x;
                assert(s[i] == x);
            }
            if x == y {
                assert(s[s.len() - 1] == x);
            }
        }
        if !d.contains(y) {
            let e = d.push(y);
            assert forall|x: JsonV| #[trigger] e.contains(x) <==> (d.contains(x) || x == y) by {
                if e.contains(x) {
                    let i = choose|i: int| 0 <= i < e.len() && e[i] == x;
                    if i < d.len() {
                        assert(d[i] == x);
                    }
                }
                if d.contains(x) {
                    let i = choose|i: int| 0 <= i < d.len() && d[i] == x;
                    assert(e[i] == x);
                }
                if x == y {
                    assert(e[d.len() as int] == x);
                }
            }
            assert forall|i: int, j: int| 0 <= i < e.len() && 0 <= j < e.len() && i != j implies e[i]
                != e[j] by {
                if i < d.len() && j < d.len() {
                    assert(e[i] == d[i] && e[j] == d[j]);
                } else if i < d.len() {
                    assert(e[i] == d[i]);
                    assert(d.contains(d[i]));
                } else if j < d.len() {
                    assert(e[j] == d[j]);
                    assert(d.contains(d[j]));
                }
            }
        }
    }
}

pub proof fn lemma_items_wf_from_contains(s: Seq<JsonV>, big: Seq<JsonV>)
    requires
        forall|x: JsonV| s.contains(x) ==> big.contains(x),
        forall|i: int| 0 <= i < big.len() ==> #[trigger] wf_json(big[i]),
    ensures
        forall|i: int| 0 <= i < s.len() ==> #[trigger] wf_json(s[i]),
{
    assert forall|i: int| 0 <= i < s.len() implies #[trigger] wf_json(s[i]) by {
        assert(s.contains(s[i]));
        let j = choose|j: int| 0 <= j < big.len() && big[j] == s[i];
        assert(wf_json(big[j]));
    }
}

/// Merging well-formed values gives a well-formed value.
pub proof fn lemma_merge_wf(a: JsonV, b: JsonV)
    requires
        wf_json(a),
        wf_json(b),
    ensures
        wf_json(merge_json(a, b)),
    decreases a, 0nat,
{
    match a {
        JsonV::Object(ma) => match b {
            JsonV::Object(mb) => {
                lemma_merge_members_sorted(ma, mb);
                lemma_wf_member_values(ma);
                lemma_wf_member_values(mb);
                lemma_merge_members_wf(ma, mb);
                lemma_wf_member_values(merge_members(ma, mb));
            },
            _ => {},
        },
        JsonV::Array(xa) => match b {
            JsonV::Array(xb) => {
                let s = xa + xb;
                lemma_wf_items(xa);
                lemma_wf_items(xb);
                assert forall|i: int| 0 <= i < s.len() implies #[trigger] wf_json(s[i]) by {
                    if i < xa.len() {
                        assert(s[i] == xa[i]);
                    } else {
                        assert(s[i] == xb[i - xa.len()]);
                    }
                }
                lemma_dedup_contains(s);
                lemma_items_wf_from_contains(dedup(s), s);
                lemma_wf_items(dedup(s));
            },
            _ => {},
        },
        _ => {},
    }
}

pub proof fn lemma_merge_members_wf(ma: Seq<(Seq<char>, JsonV)>, mb: Seq<(Seq<char>, JsonV)>)
    requires
        forall|i: int| 0 <= i < ma.len() ==> #[trigger] wf_json(ma[i].1),
        forall|i: int| 0 <= i < mb.len() ==> #[trigger] wf_json(mb[i].1),
    ensures
        forall|i: int|
            0 <= i < merge_members(ma, mb).len() ==> #[trigger] wf_json(merge_members(ma, mb)[i].1),
    decreases ma, mb.len(),
{
    let r = merge_members(ma, mb);
    if ma.len() == 0 || mb.len() == 0 {
    } else {
        let ta = ma.subrange(1, ma.len() as int);
        let tb = mb.subrange(1, mb.len() as int);
        assert forall|i: int| 0 <= i < ta.len() implies #[trigger] wf_json(ta[i].1) by {
            assert(ta[i] == ma[i + 1]);
        }
        assert forall|i: int| 0 <= i < tb.len() implies #[trigger] wf_json(tb[i].1) by {
            assert(tb[i] == mb[i + 1]);
        }
        if key_lt(ma[0].0, mb[0].0) {
            lemma_merge_members_wf(ta, mb);
            let rest = merge_members(ta, mb);
            assert forall|i: int| 0 <= i < r.len() implies #[trigger] wf_json(r[i].1) by {
                if i > 0 {
                    assert(r[i] == rest[i - 1]);
                }
            }
        } else if ma[0].0 == mb[0].0 {
            lemma_merge_members_wf(ta, tb);
            lemma_merge_wf(ma[0].1, mb[0].1);
            let rest = merge_members(ta, tb);
            assert forall|i: int| 0 <= i < r.len() implies #[trigger] wf_json(r[i].1) by {
                if i > 0 {
                    assert(r[i] == rest[i - 1]);
                }
            }
        } else {
            lemma_merge_members_wf(ma, tb);
            let rest = merge_members(ma, tb);
            assert forall|i: int| 0 <= i < r.len() implies #[trigger] wf_json(r[i].1) by {
                if i > 0 {
                    assert(r[i] == rest[i - 1]);
                }
            }
        }
    }
}

pub proof fn lemma_view_items_push(s: Seq<Json>, x: Json)
    ensures
        view_items(s.push(x)) == view_items(s).push(x@),
{
    assert(s.push(x).subrange(0, s.len() as int) =~= s);
}

pub proof fn lemma_view_members_push(s: Seq<(String, Json)>, x: (String, Json))
    ensures
        view_members(s.push(x)) == view_members(s).push((x.0@, x.1@)),
{
    assert(s.push(x).subrange(0, s.len() as int) =~= s);
}

} // verus!

verus! {

/// Whether `items` holds a value with the content of `x`.
fn contains_value(items: &Vec<Json>, x: &Json) -> (r: bool)
    ensures
        r == view_items(items@).contains(x@),
{
    proof {
        lemma_view_items(items@);
    }
    let mut i: usize = 0;
    while i < items.len()
        invariant
            i <= items.len(),
            view_items(items@).len() == items.len(),
            forall|k: int| 0 <= k < items.len() ==> #[trigger] view_items(items@)[k] == items@[k]@,
            forall|k: int| 0 <= k < i ==> view_items(items@)[k] != x@,
        decreases items.len() - i,
    {
        if items[i].equals(x) {
            assert(view_items(items@)[i as int] == x@);
            return true;
        }
        i = i + 1;
    }
    false
}

/// `a` followed by `b`, each value kept only at its first occurrence.
fn concat_dedup(a: &Vec<Json>, b: &Vec<Json>) -> (r: Vec<Json>)
    ensures
        view_items(r@) == dedup(view_items(a@) + view_items(b@)),
{
    let ghost s = view_items(a@) + view_items(b@);
    proof {
        lemma_view_items(a@);
        lemma_view_items(b@);
    }
    let mut out: Vec<Json> = Vec::new();
    proof {
        assert(s.take(0) =~= Seq::<JsonV>::empty());
        assert(view_items(out@) =~= Seq::<JsonV>::empty());
    }
    let mut i: usize = 0;
    while i < a.len()
        invariant
            i <= a.len(),
            s.len() == a.len() + b.len(),
            view_items(a@).len() == a.len(),
            forall|k: int| 0 <= k < a.len() ==> #[trigger] view_items(a@)[k] == a@[k]@,
            s == view_items(a@) + view_items(b@),
            view_items(out@) == dedup(s.take(i as int)),
        decreases a.len() - i,
    {
        let item = &a[i];
        proof {
            assert(s[i as int] == item@);
            assert(s.take(i + 1).drop_last() =~= s.take(i as int));
            assert(s.take(i + 1).last() == s[i as int]);
        }
        if !contains_value(&out, item) {
            let c = item.copy();
            proof {
                lemma_view_items_push(out@, c);
            }
            out.push(c);
        }
        i = i + 1;
    }
    let mut j: usize = 0;
    while j < b.len()
        invariant
            j <= b.len(),
            s.len() == a.len() + b.len(),
            view_items(a@).len() == a.len(),
            view_items(b@).len() == b.len(),
            forall|k: int| 0 <= k < b.len() ==> #[trigger] view_items(b@)[k] == b@[k]@,
            s == view_items(a@) + view_items(b@),
            view_items(out@) == dedup(s.take(a.len() + j)),
        decreases b.len() - j,
    {
        let item = &b[j];
        let ghost n = a.len() + j;
        proof {
            assert(s[n] == item@);
            assert(s.take(n + 1).drop_last() =~= s.take(n));
            assert(s.take(n + 1).last() == s[n]);
        }
        if !contains_value(&out, item) {
            let c = item.copy();
            proof {
                lemma_view_items_push(out@, c);
            }
            out.push(c);
        }
        j = j + 1;
    }
    proof {
        assert(s.take(a.len() + b.len()) =~= s);
    }
    out
}

/// Deep merge: objects merge key by key, arrays concatenate without repeats, and
/// anything else is replaced by `b`.
pub fn deep_merge(a: &Json, b: &Json) -> (r: Json)
    ensures
        r@ == merge_json(a@, b@),
        a.wf() && b.wf() ==> r.wf(),
    decreases a, 0nat,
{
    proof {
        if a.wf() && b.wf() {
            lemma_merge_wf(a@, b@);
        }
    }
    match (a, b) {
        (Json::Object(ma), Json::Object(mb)) => {
            proof {
                assert(decreases_to!(*a => *ma));
            }
            Json::Object(merge_objects(ma, mb))
        },
        (Json::Array(xa), Json::Array(xb)) => Json::Array(concat_dedup(xa, xb)),
        _ => b.copy(),
    }
}

/// The members of two objects merged in key order.
#[verifier::rlimit(40)]
fn merge_objects(ma: &Vec<(String, Json)>, mb: &Vec<(String, Json)>) -> (r: Vec<(String, Json)>)
    ensures
        view_members(r@) == merge_members(view_members(ma@), view_members(mb@)),
    decreases *ma, mb@.len(),
{
    let ghost va = view_members(ma@);
    let ghost vb = view_members(mb@);
    proof {
        lemma_view_members(ma@);
        lemma_view_members(mb@);
    }
    let mut out: Vec<(String, Json)> = Vec::new();
    let mut i: usize = 0;
    let mut j: usize = 0;
    proof {
        assert(va.subrange(0, va.len() as int) =~= va);
        assert(vb.subrange(0, vb.len() as int) =~= vb);
        assert(view_members(out@) =~= Seq::<(Seq<char>, JsonV)>::empty());
        assert(view_members(out@) + merge_members(va, vb) =~= merge_members(va, vb));
    }
    while i < ma.len() && j < mb.len()
        invariant
            i <= ma.len(),
            j <= mb.len(),
            va == view_members(ma@),
            vb == view_members(mb@),
            va.len() == ma.len(),
            vb.len() == mb.len(),
            forall|k: int| 0 <= k < ma.len() ==> #[trigger] va[k] == (ma@[k].0@, ma@[k].1@),
            forall|k: int| 0 <= k < mb.len() ==> #[trigger] vb[k] == (mb@[k].0@, mb@[k].1@),
            view_members(out@) + merge_members(
                va.subrange(i as int, va.len() as int),
                vb.subrange(j as int, vb.len() as int),
            ) == merge_members(va, vb),
        decreases ma.len() + mb.len() - i - j,
    {
        let ghost sa = va.subrange(i as int, va.len() as int);
        let ghost sb = vb.subrange(j as int, vb.len() as int);
        proof {
            assert(sa[0] == va[i as int]);
            assert(sb[0] == vb[j as int]);
            assert(sa.subrange(1, sa.len() as int) =~= va.subrange(i + 1, va.len() as int));
            assert(sb.subrange(1, sb.len() as int) =~= vb.subrange(j + 1, vb.len() as int));
        }
        let c = compare_keys(ma[i].0.as_str(), mb[j].0.as_str());
        if c < 0 {
            let key = ma[i].0.clone();
            let val = ma[i].1.copy();
            proof {
                lemma_view_members_push(out@, (key, val));
                assert(view_members(out@) + merge_members(sa, sb) =~= view_members(
                    out@.push((key, val)),
                ) + merge_members(va.subrange(i + 1, va.len() as int), sb));
            }
            out.push((key, val));
            i = i + 1;
        } else if c == 0 {
            proof {
                assert(decreases_to!(*ma => ma@[i as int].1));
            }
            let key = ma[i].0.clone();
            let val = deep_merge(&ma[i].1, &mb[j].1);
            proof {
                lemma_view_members_push(out@, (key, val));
                assert(view_members(out@) + merge_members(sa, sb) =~= view_members(
                    out@.push((key, val)),
                ) + merge_members(
                    va.subrange(i + 1, va.len() as int),
                    vb.subrange(j + 1, vb.len() as int),
                ));
            }
            out.push((key, val));
            i = i + 1;
            j = j + 1;
        } else {
            let key = mb[j].0.clone();
            let val = mb[j].1.copy();
            proof {
                lemma_key_lt_asymmetric(sa[0].0, sb[0].0);
                lemma_view_members_push(out@, (key, val));
                assert(view_members(out@) + merge_members(sa, sb) =~= view_members(
                    out@.push((key, val)),
                ) + merge_members(sa, vb.subrange(j + 1, vb.len() as int)));
            }
            out.push((key, val));
            j = j + 1;
        }
    }
    proof {
        let sa = va.subrange(i as int, va.len() as int);
        let sb = vb.subrange(j as int, vb.len() as int);
        if i == ma.len() {
            assert(sa =~= Seq::<(Seq<char>, JsonV)>::empty());
            assert(sa + sb =~= sb);
        } else {
            assert(sb =~= Seq::<(Seq<char>, JsonV)>::empty());
            assert(sa + sb =~= sa);
        }
        assert(view_members(out@) + (sa + sb) =~= view_members(out@) + sa + sb);
    }
    while i < ma.len()
        invariant
            i <= ma.len(),
            va == view_members(ma@),
            va.len() == ma.len(),
            forall|k: int| 0 <= k < ma.len() ==> #[trigger] va[k] == (ma@[k].0@, ma@[k].1@),
            view_members(out@) + va.subrange(i as int, va.len() as int) + vb.subrange(
                j as int,
                vb.len() as int,
            ) == merge_members(va, vb),
        decreases ma.len() - i,
    {
        let key = ma[i].0.clone();
        let val = ma[i].1.copy();
        proof {
            lemma_view_members_push(out@, (key, val));
            assert(view_members(out@) + va.subrange(i as int, va.len() as int) =~= view_members(
                out@.push((key, val)),
            ) + va.subrange(i + 1, va.len() as int));
        }
        out.push((key, val));
        i = i + 1;
    }
    proof {
        assert(va.subrange(i as int, va.len() as int) =~= Seq::<(Seq<char>, JsonV)>::empty());
        assert(view_members(out@) + va.subrange(i as int, va.len() as int) =~= view_members(
            out@,
        ));
    }
    while j < mb.len()
        invariant
            j <= mb.len(),
            vb == view_members(mb@),
            vb.len() == mb.len(),
            forall|k: int| 0 <= k < mb.len() ==> #[trigger] vb[k] == (mb@[k].0@, mb@[k].1@),
            view_members(out@) + vb.subrange(j as int, vb.len() as int) == merge_members(va, vb),
        decreases mb.len() - j,
    {
        let key = mb[j].0.clone();
        let val = mb[j].1.copy();
        proof {
            lemma_view_members_push(out@, (key, val));
            assert(view_members(out@) + vb.subrange(j as int, vb.len() as int) =~= view_members(
                out@.push((key, val)),
            ) + vb.subrange(j + 1, vb.len() as int));
        }
        out.push((key, val));
        j = j + 1;
    }
    proof {
        assert(view_members(out@) + Seq::<(Seq<char>, JsonV)>::empty() =~= view_members(out@));
        assert(vb.subrange(j as int, vb.len() as int) =~= Seq::<(Seq<char>, JsonV)>::empty());
    }
    out
}

} // verus!

verus! {

/// The members without any member under `k`.
pub open spec fn remove_key(m: Seq<(Seq<char>, JsonV)>, k: Seq<char>) -> Seq<(Seq<char>, JsonV)>
    decreases m.len(),
{
    if m.len() == 0 {
        m
    } else if m[0].0 == k {
        remove_key(m.subrange(1, m.len() as int), k)
    } else {
        seq![m[0]] + remove_key(m.subrange(1, m.len() as int), k)
    }
}

/// The members with the first member under `k` holding `v` instead.
pub open spec fn set_key(m: Seq<(Seq<char>, JsonV)>, k: Seq<char>, v: JsonV) -> Seq<
    (Seq<char>, JsonV),
>
    decreases m.len(),
{
    if m.len() == 0 {
        m
    } else if m[0].0 == k {
        seq![(k, v)] + m.subrange(1, m.len() as int)
    } else {
        seq![m[0]] + set_key(m.subrange(1, m.len() as int), k, v)
    }
}

pub proof fn lemma_remove_key(m: Seq<(Seq<char>, JsonV)>, k: Seq<char>, lo: Seq<char>)
    ensures
        lookup(remove_key(m, k), k) is None,
        forall|j: Seq<char>| j != k ==> #[trigger] lookup(remove_key(m, k), j) == lookup(m, j),
        keys_above(m, lo) ==> keys_above(remove_key(m, k), lo),
        sorted_members(m) ==> sorted_members(remove_key(m, k)),
        (forall|i: int| 0 <= i < m.len() ==> #[trigger] wf_json(m[i].1)) ==> (forall|i: int|
            0 <= i < remove_key(m, k).len() ==> #[trigger] wf_json(remove_key(m, k)[i].1)),
    decreases m.len(),
{
    if m.len() > 0 {
        let t = m.subrange(1, m.len() as int);
        lemma_remove_key(t, k, lo);
        lemma_remove_key(t, k, m[0].0);
        let r = remove_key(t, k);
        if m[0].0 != k {
            assert forall|j: Seq<char>| true implies #[trigger] lookup(seq![m[0]] + r, j) == (if m[0].0
                == j {
                Some(m[0].1)
            } else {
                lookup(r, j)
            }) by {
                lemma_lookup_cons(m[0], r, j);
            }
            if keys_above(m, lo) {
                lemma_keys_above_tail(m, lo);
                assert forall|i: int| 0 <= i < (seq![m[0]] + r).len() implies key_lt(
                    lo,
                    #[trigger] (seq![m[0]] + r)[i].0,
                ) by {
                    if i > 0 {
                        assert((seq![m[0]] + r)[i] == r[i - 1]);
                    }
                }
            }
            if sorted_members(m) {
                lemma_sorted_tail(m);
                lemma_sorted_cons(m[0], r);
            }
            if forall|i: int| 0 <= i < m.len() ==> #[trigger] wf_json(m[i].1) {
                assert forall|i: int| 0 <= i < t.len() implies #[trigger] wf_json(t[i].1) by {
                    assert(t[i] == m[i + 1]);
                }
                assert forall|i: int| 0 <= i < (seq![m[0]] + r).len() implies #[trigger] wf_json(
                    (seq![m[0]] + r)[i].1,
                ) by {
                    if i > 0 {
                        assert((seq![m[0]] + r)[i] == r[i - 1]);
                    }
                }
            }
        } else {
            if keys_above(m, lo) {
                lemma_keys_above_tail(m, lo);
            }
            if sorted_members(m) {
                lemma_sorted_tail(m);
            }
            if forall|i: int| 0 <= i < m.len() ==> #[trigger] wf_json(m[i].1) {
                assert forall|i: int| 0 <= i < t.len() implies #[trigger] wf_json(t[i].1) by {
                    assert(t[i] == m[i + 1]);
                }
            }
        }
    }
}

pub proof fn lemma_set_key(m: Seq<(Seq<char>, JsonV)>, k: Seq<char>, v: JsonV)
    ensures
        set_key(m, k, v).len() == m.len(),
        forall|i: int| 0 <= i < m.len() ==> (#[trigger] set_key(m, k, v)[i]).0 == m[i].0,
        forall|i: int|
            0 <= i < m.len() ==> (#[trigger] set_key(m, k, v)[i]).1 == m[i].1 || set_key(
                m,
                k,
                v,
            )[i].1 == v,
        lookup(m, k) is Some ==> lookup(set_key(m, k, v), k) == Some(v),
        forall|j: Seq<char>| j != k ==> #[trigger] lookup(set_key(m, k, v), j) == lookup(m, j),
    decreases m.len(),
{
    if m.len() > 0 {
        let t = m.subrange(1, m.len() as int);
        lemma_set_key(t, k, v);
        if m[0].0 == k {
            let r = seq![(k, v)] + t;
            assert forall|j: Seq<char>| true implies #[trigger] lookup(r, j) == (if k == j {
                Some(v)
            } else {
                lookup(t, j)
            }) by {
                lemma_lookup_cons((k, v), t, j);
            }
            assert forall|i: int| 0 <= i < m.len() implies (#[trigger] r[i]).0 == m[i].0 && (r[i].1
                == m[i].1 || r[i].1 == v) by {
                if i > 0 {
                    assert(r[i] == t[i - 1]);
                    assert(m[i] == t[i - 1]);
                }
            }
        } else {
            let r = seq![m[0]] + set_key(t, k, v);
            assert forall|j: Seq<char>| true implies #[trigger] lookup(r, j) == (if m[0].0 == j {
                Some(m[0].1)
            } else {
                lookup(set_key(t, k, v), j)
            }) by {
                lemma_lookup_cons(m[0], set_key(t, k, v), j);
            }
            assert forall|i: int| 0 <= i < m.len() implies (#[trigger] r[i]).0 == m[i].0 && (r[i].1
                == m[i].1 || r[i].1 == v) by {
                if i > 0 {
                    assert(r[i] == set_key(t, k, v)[i - 1]);
                    assert(m[i] == t[i - 1]);
                }
            }
        }
    }
}

impl Json {
    /// The member under `key`, when this is an object holding one.
    pub fn get(&self, key: &str) -> (r: Option<&Json>)
        ensures
            r matches Some(x) ==> member(self@, key@) == Some(x@),
            r is None ==> member(self@, key@) is None,
    {
        match self {
            Json::Object(m) => {
                proof {
                    lemma_view_members(m@);
                }
                let ghost vm = view_members(m@);
                let mut i: usize = 0;
                proof {
                    assert(vm.subrange(0, vm.len() as int) =~= vm);
                }
                while i < m.len()
                    invariant
                        i <= m.len(),
                        vm == view_members(m@),
                        self@ == JsonV::Object(vm),
                        vm.len() == m.len(),
                        forall|k: int| 0 <= k < m.len() ==> #[trigger] vm[k] == (m@[k].0@, m@[k].1@),
                        lookup(vm.subrange(i as int, vm.len() as int), key@) == lookup(vm, key@),
                    decreases m.len() - i,
                {
                    let ghost rest = vm.subrange(i as int, vm.len() as int);
                    proof {
                        assert(rest[0] == vm[i as int]);
                        assert(rest.subrange(1, rest.len() as int) =~= vm.subrange(
                            i + 1,
                            vm.len() as int,
                        ));
                    }
                    if crate::keys::compare_keys(m[i].0.as_str(), key) == 0 {
                        proof {
                            assert(rest.len() > 0);
                            assert(rest[0].0 == key@);
                            assert(lookup(rest, key@) == Some(rest[0].1));
                            assert(rest[0] == vm[i as int]);
                            assert(vm[i as int] == (m@[i as int].0@, m@[i as int].1@));
                            assert(self@ == JsonV::Object(vm));
                        }
                        return Some(&m[i].1);
                    }
                    i = i + 1;
                }
                None
            },
            _ => None,
        }
    }
}


/// The members without any member under `k`.
pub(crate) fn members_without(m: &Vec<(String, Json)>, k: &str) -> (r: Vec<(String, Json)>)
    ensures
        view_members(r@) == remove_key(view_members(m@), k@),
{
    let ghost vm = view_members(m@);
    proof {
        lemma_view_members(m@);
        assert(vm.subrange(0, vm.len() as int) =~= vm);
        assert(view_members(Seq::<(String, Json)>::empty()) =~= Seq::<(Seq<char>, JsonV)>::empty());
    }
    let mut out: Vec<(String, Json)> = Vec::new();
    let mut i: usize = 0;
    while i < m.len()
        invariant
            i <= m.len(),
            vm == view_members(m@),
            vm.len() == m.len(),
            forall|j: int| 0 <= j < m.len() ==> #[trigger] vm[j] == (m@[j].0@, m@[j].1@),
            view_members(out@) + remove_key(vm.subrange(i as int, vm.len() as int), k@) == remove_key(vm, k@),
        decreases m.len() - i,
    {
        let ghost rest = vm.subrange(i as int, vm.len() as int);
        proof {
            assert(rest[0] == vm[i as int]);
            assert(rest.subrange(1, rest.len() as int) =~= vm.subrange(i + 1, vm.len() as int));
        }
        if crate::keys::compare_keys(m[i].0.as_str(), k) != 0 {
            let key = m[i].0.clone();
            let val = m[i].1.copy();
            proof {
                lemma_view_members_push(out@, (key, val));
                assert(view_members(out@) + remove_key(rest, k@) =~= view_members(out@.push((key, val)))
                    + remove_key(vm.subrange(i + 1, vm.len() as int), k@));
            }
            out.push((key, val));
        }
        i = i + 1;
    }
    proof {
        assert(vm.subrange(i as int, vm.len() as int) =~= Seq::<(Seq<char>, JsonV)>::empty());
        assert(view_members(out@) + Seq::<(Seq<char>, JsonV)>::empty() =~= view_members(out@));
    }
    out
}

/// The members with the first member under `k` holding `v` instead.
pub(crate) fn members_with(m: &Vec<(String, Json)>, k: &str, v: Json) -> (r: Vec<(String, Json)>)
    ensures
        view_members(r@) == set_key(view_members(m@), k@, v@),
{
    let ghost vm = view_members(m@);
    proof {
        lemma_view_members(m@);
        assert(vm.subrange(0, vm.len() as int) =~= vm);
        assert(view_members(Seq::<(String, Json)>::empty()) =~= Seq::<(Seq<char>, JsonV)>::empty());
    }
    let mut out: Vec<(String, Json)> = Vec::new();
    let mut i: usize = 0;
    let mut found = false;
    let mut v = Some(v);
    let ghost vv = v.unwrap()@;
    while i < m.len()
        invariant
            i <= m.len(),
            vm == view_members(m@),
            vm.len() == m.len(),
            forall|j: int| 0 <= j < m.len() ==> #[trigger] vm[j] == (m@[j].0@, m@[j].1@),
            !found ==> v is Some && v.unwrap()@ == vv,
            !found ==> view_members(out@) + set_key(vm.subrange(i as int, vm.len() as int), k@, vv) == set_key(vm, k@, vv),
            found ==> view_members(out@) + vm.subrange(i as int, vm.len() as int) == set_key(vm, k@, vv),
        decreases m.len() - i,
    {
        let ghost rest = vm.subrange(i as int, vm.len() as int);
        proof {
            assert(rest[0] == vm[i as int]);
            assert(rest.subrange(1, rest.len() as int) =~= vm.subrange(i + 1, vm.len() as int));
        }
        let key = m[i].0.clone();
        if !found && crate::keys::compare_keys(m[i].0.as_str(), k) == 0 {
            let val = v.take().unwrap();
            proof {
                lemma_view_members_push(out@, (key, val));
                assert(view_members(out@) + set_key(rest, k@, vv) =~= view_members(out@.push((key, val)))
                    + vm.subrange(i + 1, vm.len() as int));
            }
            out.push((key, val));
            found = true;
        } else {
            let val = m[i].1.copy();
            proof {
                lemma_view_members_push(out@, (key, val));
                if found {
                    assert(view_members(out@) + rest =~= view_members(out@.push((key, val)))
                        + vm.subrange(i + 1, vm.len() as int));
                } else {
                    assert(view_members(out@) + set_key(rest, k@, vv) =~= view_members(out@.push((key, val)))
                        + set_key(vm.subrange(i + 1, vm.len() as int), k@, vv));
                }
            }
            out.push((key, val));
        }
        i = i + 1;
    }
    proof {
        assert(vm.subrange(i as int, vm.len() as int) =~= Seq::<(Seq<char>, JsonV)>::empty());
        assert(view_members(out@) + Seq::<(Seq<char>, JsonV)>::empty() =~= view_members(out@));
    }
    out
}


/// Law: in the deep merge of two well-formed objects, each key holds the merge of what
/// the two sides hold under it: `b`'s value where only `b` has the key, `a`'s where only
/// `a` has it, and their merge where both do.
pub proof fn law_merge_member(a: JsonV, b: JsonV, k: Seq<char>)
    requires
        wf_json(a),
        wf_json(b),
        a is Object,
        b is Object,
    ensures
        member(merge_json(a, b), k) == merge_found(member(a, k), member(b, k)),
{
    lemma_merge_members_lookup(a->Object_0, b->Object_0, k);
}

/// Law: two arrays merge into every element of either, each once, the first side's
/// elements first in their order.
pub proof fn law_merge_arrays(xa: Seq<JsonV>, xb: Seq<JsonV>)
    ensures
        merge_json(JsonV::Array(xa), JsonV::Array(xb)) == JsonV::Array(dedup(xa + xb)),
        forall|x: JsonV| #[trigger] dedup(xa + xb).contains(x) <==> (xa.contains(x) || xb.contains(x)),
        dedup(xa + xb).no_duplicates(),
{
    lemma_dedup_contains(xa + xb);
    assert forall|x: JsonV| #[trigger] (xa + xb).contains(x) <==> (xa.contains(x) || xb.contains(x)) by {
        if xa.contains(x) {
            let i = choose|i: int| 0 <= i < xa.len() && xa[i] == x;
            assert((xa + xb)[i] == x);
        }
        if xb.contains(x) {
            let i = choose|i: int| 0 <= i < xb.len() && xb[i] == x;
            assert((xa + xb)[xa.len() + i] == x);
        }
        if (xa + xb).contains(x) {
            let i = choose|i: int| 0 <= i < (xa + xb).len() && (xa + xb)[i] == x;
            if i < xa.len() {
                assert(xa[i] == x);
            } else {
                assert(xb[i - xa.len()] == x);
            }
        }
    }
}

/// Law: where `b` is neither an object nor an array, or the two sides are of different
/// kinds, `b` wins whole.
pub proof fn law_merge_other_wins(a: JsonV, b: JsonV)
    requires
        !(a is Object && b is Object),
        !(a is Array && b is Array),
    ensures
        merge_json(a, b) == b,
{
}

/// Law: merging with an empty object gives the other side back. An empty object below
/// any value yields that value; an object above an empty one is itself.
pub proof fn law_merge_empty_object(v: JsonV)
    ensures
        merge_json(JsonV::Object(Seq::empty()), v) == v,
        v is Object ==> merge_json(v, JsonV::Object(Seq::empty())) == v,
{
    if let JsonV::Object(m) = v {
        if m.len() == 0 {
            assert(m =~= Seq::<(Seq<char>, JsonV)>::empty());
        }
    }
}

/// A key that neither side holds is not held by their merge, whatever the order of the
/// members.
pub proof fn lemma_merge_members_absent(ma: Seq<(Seq<char>, JsonV)>, mb: Seq<(Seq<char>, JsonV)>, k: Seq<char>)
    requires
        lookup(ma, k) is None,
        lookup(mb, k) is None,
    ensures
        lookup(merge_members(ma, mb), k) is None,
    decreases ma.len() + mb.len(),
{
    if ma.len() > 0 && mb.len() > 0 {
        let ta = ma.subrange(1, ma.len() as int);
        let tb = mb.subrange(1, mb.len() as int);
        if key_lt(ma[0].0, mb[0].0) {
            lemma_merge_members_absent(ta, mb, k);
            lemma_lookup_cons(ma[0], merge_members(ta, mb), k);
        } else if ma[0].0 == mb[0].0 {
            lemma_merge_members_absent(ta, tb, k);
            lemma_lookup_cons((ma[0].0, merge_json(ma[0].1, mb[0].1)), merge_members(ta, tb), k);
        } else {
            lemma_merge_members_absent(ma, tb, k);
            lemma_lookup_cons(mb[0], merge_members(ma, tb), k);
        }
    }
}


/// The members with `k` holding `v`: replaced where `k` is found, else inserted before
/// the first key that sorts after it.
pub open spec fn insert_key(m: Seq<(Seq<char>, JsonV)>, k: Seq<char>, v: JsonV) -> Seq<(Seq<char>, JsonV)>
    decreases m.len(),
{
    if m.len() == 0 {
        seq![(k, v)]
    } else if m[0].0 == k {
        seq![(k, v)] + m.subrange(1, m.len() as int)
    } else if key_lt(k, m[0].0) {
        seq![(k, v)] + m
    } else {
        seq![m[0]] + insert_key(m.subrange(1, m.len() as int), k, v)
    }
}

pub proof fn lemma_insert_key(m: Seq<(Seq<char>, JsonV)>, k: Seq<char>, v: JsonV)
    requires
        sorted_members(m),
    ensures
        sorted_members(insert_key(m, k, v)),
        lookup(insert_key(m, k, v), k) == Some(v),
        forall|j: Seq<char>| j != k ==> #[trigger] lookup(insert_key(m, k, v), j) == lookup(m, j),
        forall|lo: Seq<char>| keys_above(m, lo) && key_lt(lo, k) ==> #[trigger] keys_above(insert_key(m, k, v), lo),
        (forall|i: int| 0 <= i < m.len() ==> #[trigger] wf_json(m[i].1)) && wf_json(v) ==> (forall|i: int|
            0 <= i < insert_key(m, k, v).len() ==> #[trigger] wf_json(insert_key(m, k, v)[i].1)),
    decreases m.len(),
{
    let r = insert_key(m, k, v);
    if m.len() == 0 {
        assert forall|j: Seq<char>| j != k implies #[trigger] lookup(r, j) == lookup(m, j) by {
            lemma_lookup_cons((k, v), Seq::empty(), j);
        }
        lemma_lookup_cons((k, v), Seq::empty(), k);
    } else {
        let t = m.subrange(1, m.len() as int);
        lemma_sorted_tail(m);
        lemma_key_lt_total(k, m[0].0);
        if m[0].0 == k {
            assert forall|j: Seq<char>| true implies #[trigger] lookup(r, j) == (if k == j { Some(v) } else { lookup(t, j) }) by {
                lemma_lookup_cons((k, v), t, j);
            }
            assert forall|j: Seq<char>| true implies #[trigger] lookup(m, j) == (if m[0].0 == j { Some(m[0].1) } else { lookup(t, j) }) by {
                assert(m =~= seq![m[0]] + t);
                lemma_lookup_cons(m[0], t, j);
            }
            assert(sorted_members(r)) by {
                assert forall|a: int, b: int| 0 <= a < b < r.len() implies key_lt(#[trigger] r[a].0, #[trigger] r[b].0) by {
                    assert(r[b] == m[b]);
                    if a > 0 {
                        assert(r[a] == m[a]);
                    }
                }
            }
            assert forall|lo: Seq<char>| keys_above(m, lo) && key_lt(lo, k) implies #[trigger] keys_above(r, lo) by {
                assert forall|i: int| 0 <= i < r.len() implies key_lt(lo, #[trigger] r[i].0) by {
                    if i > 0 {
                        assert(r[i] == m[i]);
                    }
                }
            }
        } else if key_lt(k, m[0].0) {
            assert forall|j: Seq<char>| true implies #[trigger] lookup(r, j) == (if k == j { Some(v) } else { lookup(m, j) }) by {
                lemma_lookup_cons((k, v), m, j);
            }
            assert(sorted_members(r)) by {
                assert forall|a: int, b: int| 0 <= a < b < r.len() implies key_lt(#[trigger] r[a].0, #[trigger] r[b].0) by {
                    assert(r[b] == m[b - 1]);
                    if a > 0 {
                        assert(r[a] == m[a - 1]);
                    } else {
                        if b - 1 > 0 {
                            lemma_key_lt_transitive(k, m[0].0, m[b - 1].0);
                        }
                    }
                }
            }
            assert forall|lo: Seq<char>| keys_above(m, lo) && key_lt(lo, k) implies #[trigger] keys_above(r, lo) by {
                assert forall|i: int| 0 <= i < r.len() implies key_lt(lo, #[trigger] r[i].0) by {
                    if i > 0 {
                        assert(r[i] == m[i - 1]);
                    }
                }
            }
        } else {
            lemma_insert_key(t, k, v);
            let rt = insert_key(t, k, v);
            assert forall|j: Seq<char>| true implies #[trigger] lookup(r, j) == (if m[0].0 == j { Some(m[0].1) } else { lookup(rt, j) }) by {
                lemma_lookup_cons(m[0], rt, j);
            }
            assert forall|j: Seq<char>| true implies #[trigger] lookup(m, j) == (if m[0].0 == j { Some(m[0].1) } else { lookup(t, j) }) by {
                assert(m =~= seq![m[0]] + t);
                lemma_lookup_cons(m[0], t, j);
            }
            assert(keys_above(t, m[0].0)) by {
                assert forall|i: int| 0 <= i < t.len() implies key_lt(m[0].0, #[trigger] t[i].0) by {
                    assert(t[i] == m[i + 1]);
                }
            }
            assert(keys_above(rt, m[0].0));
            assert(sorted_members(r)) by {
                assert forall|a: int, b: int| 0 <= a < b < r.len() implies key_lt(#[trigger] r[a].0, #[trigger] r[b].0) by {
                    assert(r[b] == rt[b - 1]);
                    if a > 0 {
                        assert(r[a] == rt[a - 1]);
                    }
                }
            }
            assert forall|lo: Seq<char>| keys_above(m, lo) && key_lt(lo, k) implies #[trigger] keys_above(r, lo) by {
                assert(keys_above(t, lo)) by {
                    assert forall|i: int| 0 <= i < t.len() implies key_lt(lo, #[trigger] t[i].0) by {
                        assert(t[i] == m[i + 1]);
                    }
                }
                assert(keys_above(rt, lo));
                assert forall|i: int| 0 <= i < r.len() implies key_lt(lo, #[trigger] r[i].0) by {
                    if i > 0 {
                        assert(r[i] == rt[i - 1]);
                    } else {
                        assert(r[0] == m[0]);
                    }
                }
            }
            if (forall|i: int| 0 <= i < m.len() ==> #[trigger] wf_json(m[i].1)) && wf_json(v) {
                assert forall|i: int| 0 <= i < t.len() implies #[trigger] wf_json(t[i].1) by {
                    assert(t[i] == m[i + 1]);
                }
                assert forall|i: int| 0 <= i < r.len() implies #[trigger] wf_json(r[i].1) by {
                    if i > 0 {
                        assert(r[i] == rt[i - 1]);
                    }
                }
            }
        }
        if (forall|i: int| 0 <= i < m.len() ==> #[trigger] wf_json(m[i].1)) && wf_json(v) {
            assert forall|i: int| 0 <= i < r.len() implies #[trigger] wf_json(r[i].1) by {
                if m[0].0 == k {
                    if i > 0 {
                        assert(r[i] == m[i]);
                    }
                } else if key_lt(k, m[0].0) {
                    if i > 0 {
                        assert(r[i] == m[i - 1]);
                    }
                }
            }
        }
    }
}

/// The members with `k` holding `v`, in key order.
pub(crate) fn members_insert(m: &Vec<(String, Json)>, k: &str, v: Json) -> (r: Vec<(String, Json)>)
    ensures
        view_members(r@) == insert_key(view_members(m@), k@, v@),
{
    let ghost vm = view_members(m@);
    let ghost vv = v@;
    proof {
        lemma_view_members(m@);
        assert(vm.subrange(0, vm.len() as int) =~= vm);
        assert(view_members(Seq::<(String, Json)>::empty()) =~= Seq::<(Seq<char>, JsonV)>::empty());
    }
    let mut out: Vec<(String, Json)> = Vec::new();
    let mut i: usize = 0;
    let mut v = Some(v);
    while i < m.len()
        invariant
            i <= m.len(),
            vm == view_members(m@),
            vm.len() == m.len(),
            forall|j: int| 0 <= j < m.len() ==> #[trigger] vm[j] == (m@[j].0@, m@[j].1@),
            v is Some ==> v.unwrap()@ == vv && view_members(out@) + insert_key(vm.subrange(i as int, vm.len() as int), k@, vv) == insert_key(vm, k@, vv),
            v is None ==> view_members(out@) + vm.subrange(i as int, vm.len() as int) == insert_key(vm, k@, vv),
        decreases m.len() - i, (if v is Some { 1int } else { 0int }),
    {
        let ghost rest = vm.subrange(i as int, vm.len() as int);
        proof {
            assert(rest[0] == vm[i as int]);
            assert(rest.subrange(1, rest.len() as int) =~= vm.subrange(i + 1, vm.len() as int));
        }
        let c = if v.is_some() {
            compare_keys(m[i].0.as_str(), k)
        } else {
            1
        };
        if v.is_some() && c == 0 {
            let val = v.take().unwrap();
            let key = m[i].0.clone();
            proof {
                lemma_view_members_push(out@, (key, val));
                assert(view_members(out@) + insert_key(rest, k@, vv) =~= view_members(out@.push((key, val)))
                    + vm.subrange(i + 1, vm.len() as int));
            }
            out.push((key, val));
        } else if v.is_some() && c > 0 {
            let val = v.take().unwrap();
            let key = k.to_owned();
            proof {
                lemma_view_members_push(out@, (key, val));
                assert(view_members(out@) + insert_key(rest, k@, vv) =~= view_members(out@.push((key, val)))
                    + vm.subrange(i as int, vm.len() as int));
            }
            out.push((key, val));
            continue;
        } else {
            let key = m[i].0.clone();
            let val = m[i].1.copy();
            proof {
                lemma_view_members_push(out@, (key, val));
                if v is Some {
                    lemma_key_lt_asymmetric(rest[0].0, k@);
                    assert(view_members(out@) + insert_key(rest, k@, vv) =~= view_members(out@.push((key, val)))
                        + insert_key(vm.subrange(i + 1, vm.len() as int), k@, vv));
                } else {
                    assert(view_members(out@) + rest =~= view_members(out@.push((key, val)))
                        + vm.subrange(i + 1, vm.len() as int));
                }
            }
            out.push((key, val));
        }
        i = i + 1;
    }
    proof {
        assert(vm.subrange(i as int, vm.len() as int) =~= Seq::<(Seq<char>, JsonV)>::empty());
        assert(view_members(out@) + Seq::<(Seq<char>, JsonV)>::empty() =~= view_members(out@));
    }
    match v {
        Some(val) => {
            let key = k.to_owned();
            proof {
                lemma_view_members_push(out@, (key, val));
                assert(view_members(out@.push((key, val))) =~= view_members(out@) + insert_key(Seq::<(Seq<char>, JsonV)>::empty(), k@, vv));
            }
            out.push((key, val));
            out
        },
        None => out,
    }
}

impl Json {
    /// Sets member `key` of an object to `value` (keys stay in order); a value that is no
    /// object is left as it is.
    pub fn insert(&mut self, key: &str, value: Json)
        ensures
            match old(self)@ {
                JsonV::Object(m) => final(self)@ == JsonV::Object(insert_key(m, key@, value@)),
                _ => final(self)@ == old(self)@,
            },
            old(self).wf() && value.wf() ==> final(self).wf(),
    {
        proof {
            if let JsonV::Object(m) = self@ {
                if self.wf() && value.wf() {
                    lemma_wf_member_values(m);
                    lemma_insert_key(m, key@, value@);
                    lemma_wf_member_values(insert_key(m, key@, value@));
                }
            }
        }
        match self {
            Json::Object(m) => {
                let r = members_insert(m, key, value);
                *m = r;
            },
            _ => {},
        }
    }
}

/// Law: setting a member of a well-formed object keeps it well formed, makes the key hold
/// the value, and leaves every other key as it was.
pub proof fn law_insert_member(m: Seq<(Seq<char>, JsonV)>, k: Seq<char>, v: JsonV)
    requires
        wf_json(JsonV::Object(m)),
        wf_json(v),
    ensures
        wf_json(JsonV::Object(insert_key(m, k, v))),
        member(JsonV::Object(insert_key(m, k, v)), k) == Some(v),
        forall|j: Seq<char>| j != k ==> #[trigger] member(JsonV::Object(insert_key(m, k, v)), j) == member(JsonV::Object(m), j),
{
    lemma_wf_member_values(m);
    lemma_insert_key(m, k, v);
    lemma_wf_member_values(insert_key(m, k, v));
}

} // verus!
