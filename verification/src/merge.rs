//! Layered settings: each layer is deep-merged onto the ones below it, after dropping
//! the paths that the layer's `$replace` directive names.
use vstd::prelude::*;
use crate::json::{
    Json, JsonV, lookup, member, remove_key, set_key, merge_json, merge_members, merge_found,
    wf_json, sorted_members, lemma_remove_key, lemma_set_key, lemma_lookup_some,
    lemma_wf_member_values, lemma_merge_members_lookup, lemma_merge_wf, lemma_lookup_cons, lemma_view_items,
};
use crate::text::{split_spec, lemma_split_nonempty, split_on, views};
use crate::json::{members_without, members_with, view_members, lemma_view_members};

verus! {

/// The directive key, as characters.
pub open spec fn replace_key() -> Seq<char> {
    seq!['$', 'r', 'e', 'p', 'l', 'a', 'c', 'e']
}

/// The strings among `items`, in order.
pub open spec fn string_items(items: Seq<JsonV>) -> Seq<Seq<char>>
    decreases items.len(),
{
    if items.len() == 0 {
        Seq::empty()
    } else {
        let p = string_items(items.drop_last());
        match items.last() {
            JsonV::Str(s) => p.push(s),
            _ => p,
        }
    }
}

/// The paths a layer's `$replace` array names; none when the directive is missing or is
/// no array.
pub open spec fn replace_paths_spec(layer: JsonV) -> Seq<Seq<char>> {
    match member(layer, replace_key()) {
        Some(JsonV::Array(items)) => string_items(items),
        _ => Seq::empty(),
    }
}

/// The value reached by following object keys `q` from `v`.
pub open spec fn get_path(v: JsonV, q: Seq<Seq<char>>) -> Option<JsonV>
    decreases q.len(),
{
    if q.len() == 0 {
        Some(v)
    } else {
        match v {
            JsonV::Object(m) => match lookup(m, q[0]) {
                Some(x) => get_path(x, q.drop_first()),
                None => None,
            },
            _ => None,
        }
    }
}

/// `v` with the member at key path `segs` removed; a path that runs into a missing key
/// or a value that is no object leaves `v` as it is.
pub open spec fn remove_at(v: JsonV, segs: Seq<Seq<char>>) -> JsonV
    decreases segs.len(),
{
    match v {
        JsonV::Object(m) => if segs.len() == 0 {
            v
        } else if segs.len() == 1 {
            JsonV::Object(remove_key(m, segs[0]))
        } else {
            match lookup(m, segs[0]) {
                Some(next) => JsonV::Object(set_key(m, segs[0], remove_at(next, segs.drop_first()))),
                None => v,
            }
        },
        _ => v,
    }
}

/// The key path that a dot-separated path names.
pub open spec fn segments(p: Seq<char>) -> Seq<Seq<char>> {
    split_spec(p, '.')
}

/// `v` with each of `ps` removed, first to last.
pub open spec fn remove_all(v: JsonV, ps: Seq<Seq<char>>) -> JsonV
    decreases ps.len(),
{
    if ps.len() == 0 {
        v
    } else {
        remove_at(remove_all(v, ps.drop_last()), segments(ps.last()))
    }
}

/// An object without its `$replace` member; anything else unchanged.
pub open spec fn strip_directive(v: JsonV) -> JsonV {
    match v {
        JsonV::Object(m) => JsonV::Object(remove_key(m, replace_key())),
        _ => v,
    }
}

/// One layer merged onto what the layers below it gave.
pub open spec fn merge_layer_spec(acc: JsonV, layer: JsonV) -> JsonV {
    strip_directive(merge_json(remove_all(acc, replace_paths_spec(layer)), layer))
}

/// All layers, lowest precedence first, merged onto an empty object.
pub open spec fn merge_layers_spec(layers: Seq<JsonV>) -> JsonV
    decreases layers.len(),
{
    if layers.len() == 0 {
        JsonV::Object(Seq::empty())
    } else {
        merge_layer_spec(merge_layers_spec(layers.drop_last()), layers.last())
    }
}

proof fn lemma_member_wf(m: Seq<(Seq<char>, JsonV)>, k: Seq<char>)
    requires
        wf_json(JsonV::Object(m)),
        lookup(m, k) is Some,
    ensures
        wf_json(lookup(m, k).unwrap()),
{
    lemma_wf_member_values(m);
    let idx = lemma_lookup_some(m, k);
    assert(wf_json(m[idx].1));
}

proof fn lemma_set_key_wf(m: Seq<(Seq<char>, JsonV)>, k: Seq<char>, v: JsonV)
    requires
        wf_json(JsonV::Object(m)),
        wf_json(v),
    ensures
        wf_json(JsonV::Object(set_key(m, k, v))),
{
    lemma_set_key(m, k, v);
    lemma_wf_member_values(m);
    let r = set_key(m, k, v);
    assert forall|i: int| 0 <= i < r.len() implies #[trigger] wf_json(r[i].1) by {
        assert(r[i].1 == m[i].1 || r[i].1 == v);
    }
    lemma_wf_member_values(r);
    assert(sorted_members(r)) by {
        assert forall|i: int, j: int| 0 <= i < j < r.len() implies crate::keys::key_lt(
            #[trigger] r[i].0,
            #[trigger] r[j].0,
        ) by {
            assert(r[i].0 == m[i].0);
            assert(r[j].0 == m[j].0);
        }
    }
}

proof fn lemma_remove_key_wf(m: Seq<(Seq<char>, JsonV)>, k: Seq<char>)
    requires
        wf_json(JsonV::Object(m)),
    ensures
        wf_json(JsonV::Object(remove_key(m, k))),
{
    lemma_remove_key(m, k, k);
    lemma_wf_member_values(m);
    lemma_wf_member_values(remove_key(m, k));
}

proof fn lemma_remove_at_wf(v: JsonV, segs: Seq<Seq<char>>)
    requires
        wf_json(v),
    ensures
        wf_json(remove_at(v, segs)),
    decreases segs.len(),
{
    if let JsonV::Object(m) = v {
        if segs.len() == 1 {
            lemma_remove_key_wf(m, segs[0]);
        } else if segs.len() > 1 {
            if let Some(next) = lookup(m, segs[0]) {
                lemma_member_wf(m, segs[0]);
                lemma_remove_at_wf(next, segs.drop_first());
                lemma_set_key_wf(m, segs[0], remove_at(next, segs.drop_first()));
            }
        }
    }
}

proof fn lemma_remove_all_wf(v: JsonV, ps: Seq<Seq<char>>)
    requires
        wf_json(v),
    ensures
        wf_json(remove_all(v, ps)),
    decreases ps.len(),
{
    if ps.len() > 0 {
        lemma_remove_all_wf(v, ps.drop_last());
        lemma_remove_at_wf(remove_all(v, ps.drop_last()), segments(ps.last()));
    }
}

/// After removing a path, nothing is found there.
proof fn lemma_remove_at_absent(v: JsonV, segs: Seq<Seq<char>>)
    requires
        segs.len() >= 1,
    ensures
        get_path(remove_at(v, segs), segs) is None,
    decreases segs.len(),
{
    if let JsonV::Object(m) = v {
        let s0 = segs[0];
        if segs.len() == 1 {
            lemma_remove_key(m, s0, s0);
        } else {
            if let Some(next) = lookup(m, s0) {
                let nn = remove_at(next, segs.drop_first());
                lemma_set_key(m, s0, nn);
                lemma_remove_at_absent(next, segs.drop_first());
            }
        }
    }
}

/// Removing a path never makes another path appear.
proof fn lemma_remove_at_keeps_absent(v: JsonV, segs: Seq<Seq<char>>, q: Seq<Seq<char>>)
    requires
        get_path(v, q) is None,
    ensures
        get_path(remove_at(v, segs), q) is None,
    decreases segs.len(),
{
    if let JsonV::Object(m) = v {
        if segs.len() == 1 {
            lemma_remove_key(m, segs[0], segs[0]);
        } else if segs.len() > 1 {
            if let Some(next) = lookup(m, segs[0]) {
                let nn = remove_at(next, segs.drop_first());
                lemma_set_key(m, segs[0], nn);
                if q[0] == segs[0] {
                    lemma_remove_at_keeps_absent(next, segs.drop_first(), q.drop_first());
                }
            }
        }
    }
}

/// Every path in `ps` is absent after removing all of them.
proof fn lemma_remove_all_absent(v: JsonV, ps: Seq<Seq<char>>, i: int)
    requires
        0 <= i < ps.len(),
    ensures
        get_path(remove_all(v, ps), segments(ps[i])) is None,
    decreases ps.len(),
{
    let prev = ps.drop_last();
    lemma_split_nonempty(ps[i], '.');
    if i == ps.len() - 1 {
        lemma_remove_at_absent(remove_all(v, prev), segments(ps[i]));
    } else {
        lemma_remove_all_absent(v, prev, i);
        assert(prev[i] == ps[i]);
        lemma_remove_at_keeps_absent(remove_all(v, prev), segments(ps.last()), segments(ps[i]));
    }
}

/// Merging onto a value that has nothing at a path gives what the upper value has there.
proof fn lemma_merge_path_from_upper(a: JsonV, b: JsonV, q: Seq<Seq<char>>)
    requires
        wf_json(a),
        wf_json(b),
        get_path(a, q) is None,
    ensures
        get_path(merge_json(a, b), q) == get_path(b, q),
    decreases q.len(),
{
    match a {
        JsonV::Object(ma) => match b {
            JsonV::Object(mb) => {
                let q0 = q[0];
                lemma_merge_members_lookup(ma, mb, q0);
                match lookup(ma, q0) {
                    Some(x) => match lookup(mb, q0) {
                        Some(y) => {
                            lemma_member_wf(ma, q0);
                            lemma_member_wf(mb, q0);
                            lemma_merge_path_from_upper(x, y, q.drop_first());
                        },
                        None => {},
                    },
                    None => {},
                }
            },
            _ => {},
        },
        _ => {},
    }
}

/// Dropping the directive changes nothing at a path that does not start with it.
proof fn lemma_strip_path(v: JsonV, q: Seq<Seq<char>>)
    requires
        q.len() >= 1,
        q[0] != replace_key(),
    ensures
        get_path(strip_directive(v), q) == get_path(v, q),
{
    if let JsonV::Object(m) = v {
        lemma_remove_key(m, replace_key(), replace_key());
    }
}

/// Law: a path that a layer's `$replace` names holds, after the merge, exactly what the
/// layer itself holds there: the value of the lower layers is gone, whole, and nothing of
/// it is merged in. (A path whose first key is the directive itself is left out: that
/// member is dropped from every result.)
pub proof fn law_replaced_path_takes_layer_value(acc: JsonV, layer: JsonV, i: int)
    requires
        wf_json(acc),
        wf_json(layer),
        0 <= i < replace_paths_spec(layer).len(),
        segments(replace_paths_spec(layer)[i])[0] != replace_key(),
    ensures
        get_path(merge_layer_spec(acc, layer), segments(replace_paths_spec(layer)[i]))
            == get_path(layer, segments(replace_paths_spec(layer)[i])),
{
    let ps = replace_paths_spec(layer);
    let q = segments(ps[i]);
    let base = remove_all(acc, ps);
    lemma_split_nonempty(ps[i], '.');
    lemma_remove_all_wf(acc, ps);
    lemma_remove_all_absent(acc, ps, i);
    lemma_merge_path_from_upper(base, layer, q);
    lemma_strip_path(merge_json(base, layer), q);
}

/// A value that no merge looks into: neither an object nor an array.
pub open spec fn is_scalar(v: JsonV) -> bool {
    !(v is Object) && !(v is Array)
}

/// Where the upper side holds a scalar, the merge holds that scalar too, whatever the lower
/// side holds there.
proof fn lemma_merge_scalar_path(a: JsonV, b: JsonV, q: Seq<Seq<char>>)
    requires
        wf_json(a),
        wf_json(b),
        get_path(b, q) matches Some(x) && is_scalar(x),
    ensures
        get_path(merge_json(a, b), q) == get_path(b, q),
    decreases q.len(),
{
    if q.len() == 0 {
        crate::json::law_merge_other_wins(a, b);
    } else {
        match a {
            JsonV::Object(ma) => match b {
                JsonV::Object(mb) => {
                    let q0 = q[0];
                    lemma_merge_members_lookup(ma, mb, q0);
                    match lookup(ma, q0) {
                        Some(x) => match lookup(mb, q0) {
                            Some(y) => {
                                lemma_member_wf(ma, q0);
                                lemma_member_wf(mb, q0);
                                lemma_merge_scalar_path(x, y, q.drop_first());
                            },
                            None => {},
                        },
                        None => {},
                    }
                },
                _ => {},
            },
            _ => {},
        }
    }
}

/// Law: a higher layer wins. Where a layer holds a scalar, the merge holds that scalar,
/// whatever the layers below it hold there: a project cannot re-open what a profile
/// closed. (A path whose first key is the directive itself is left out: that member is
/// dropped from every result.)
pub proof fn law_layer_scalar_wins(acc: JsonV, layer: JsonV, q: Seq<Seq<char>>)
    requires
        wf_json(acc),
        wf_json(layer),
        q.len() >= 1,
        q[0] != replace_key(),
        get_path(layer, q) matches Some(x) && is_scalar(x),
    ensures
        get_path(merge_layer_spec(acc, layer), q) == get_path(layer, q),
{
    let base = remove_all(acc, replace_paths_spec(layer));
    lemma_remove_all_wf(acc, replace_paths_spec(layer));
    lemma_merge_scalar_path(base, layer, q);
    lemma_strip_path(merge_json(base, layer), q);
}

/// Law: of all the layers, the last one's scalars are the ones that hold.
pub proof fn law_last_layer_scalar_wins(layers: Seq<JsonV>, q: Seq<Seq<char>>)
    requires
        layers.len() > 0,
        forall|i: int| 0 <= i < layers.len() ==> #[trigger] wf_json(layers[i]),
        q.len() >= 1,
        q[0] != replace_key(),
        get_path(layers.last(), q) matches Some(x) && is_scalar(x),
    ensures
        get_path(merge_layers_spec(layers), q) == get_path(layers.last(), q),
{
    let below = merge_layers_spec(layers.drop_last());
    lemma_merge_layers_wf(layers.drop_last());
    law_layer_scalar_wins(below, layers.last(), q);
}

proof fn lemma_merge_layers_wf(layers: Seq<JsonV>)
    requires
        forall|i: int| 0 <= i < layers.len() ==> #[trigger] wf_json(layers[i]),
    ensures
        wf_json(merge_layers_spec(layers)),
    decreases layers.len(),
{
    if layers.len() == 0 {
        assert(wf_json(JsonV::Object(Seq::empty())));
    } else {
        let d = layers.drop_last();
        assert forall|i: int| 0 <= i < d.len() implies #[trigger] wf_json(d[i]) by {
            assert(d[i] == layers[i]);
        }
        lemma_merge_layers_wf(d);
        law_merge_layer_wf(merge_layers_spec(d), layers.last());
    }
}

proof fn lemma_merge_array_path(a: JsonV, b: JsonV, q: Seq<Seq<char>>, xa: Seq<JsonV>, xb: Seq<JsonV>)
    requires
        wf_json(a),
        wf_json(b),
        get_path(a, q) == Some(JsonV::Array(xa)),
        get_path(b, q) == Some(JsonV::Array(xb)),
    ensures
        get_path(merge_json(a, b), q) == Some(JsonV::Array(crate::json::dedup(xa + xb))),
    decreases q.len(),
{
    if q.len() > 0 {
        match a {
            JsonV::Object(ma) => match b {
                JsonV::Object(mb) => {
                    let q0 = q[0];
                    lemma_merge_members_lookup(ma, mb, q0);
                    let x = lookup(ma, q0).unwrap();
                    let y = lookup(mb, q0).unwrap();
                    lemma_member_wf(ma, q0);
                    lemma_member_wf(mb, q0);
                    lemma_merge_array_path(x, y, q.drop_first(), xa, xb);
                },
                _ => {},
            },
            _ => {},
        }
    }
}

/// Law: arrays only ever grow. Where a layer without `$replace` and the layers below it
/// both hold an array, the merge holds the elements of both, each once, the lower ones
/// first: an exclusion inherited from below is never lost.
pub proof fn law_layer_arrays_grow(acc: JsonV, layer: JsonV, q: Seq<Seq<char>>, xa: Seq<JsonV>, xb: Seq<JsonV>)
    requires
        wf_json(acc),
        wf_json(layer),
        replace_paths_spec(layer).len() == 0,
        q.len() >= 1,
        q[0] != replace_key(),
        get_path(acc, q) == Some(JsonV::Array(xa)),
        get_path(layer, q) == Some(JsonV::Array(xb)),
    ensures
        get_path(merge_layer_spec(acc, layer), q) == Some(JsonV::Array(crate::json::dedup(xa + xb))),
        forall|x: JsonV| xa.contains(x) ==> #[trigger] crate::json::dedup(xa + xb).contains(x),
{
    assert(remove_all(acc, replace_paths_spec(layer)) == acc);
    lemma_merge_array_path(acc, layer, q, xa, xb);
    lemma_strip_path(merge_json(acc, layer), q);
    crate::json::law_merge_arrays(xa, xb);
}

/// Law: the directive never survives a merge.
pub proof fn law_directive_stripped(acc: JsonV, layer: JsonV)
    ensures
        member(merge_layer_spec(acc, layer), replace_key()) is None,
{
    let merged = merge_json(remove_all(acc, replace_paths_spec(layer)), layer);
    if let JsonV::Object(m) = merged {
        lemma_remove_key(m, replace_key(), replace_key());
    }
}

proof fn lemma_remove_key_absent(m: Seq<(Seq<char>, JsonV)>, k: Seq<char>)
    requires
        lookup(m, k) is None,
    ensures
        remove_key(m, k) == m,
    decreases m.len(),
{
    if m.len() > 0 {
        let t = m.subrange(1, m.len() as int);
        lemma_remove_key_absent(t, k);
        assert(seq![m[0]] + t =~= m);
    }
}

/// Law: without a `$replace` directive on either side, merging a layer is the plain
/// deep merge.
pub proof fn law_no_directive_is_deep_merge(acc: JsonV, layer: JsonV)
    requires
        member(acc, replace_key()) is None,
        member(layer, replace_key()) is None,
    ensures
        merge_layer_spec(acc, layer) == merge_json(acc, layer),
{
    assert(replace_paths_spec(layer) =~= Seq::<Seq<char>>::empty());
    assert(remove_all(acc, replace_paths_spec(layer)) == acc);
    let merged = merge_json(acc, layer);
    match acc {
        JsonV::Object(ma) => match layer {
            JsonV::Object(mb) => {
                crate::json::lemma_merge_members_absent(ma, mb, replace_key());
                lemma_remove_key_absent(merge_members(ma, mb), replace_key());
            },
            _ => {},
        },
        _ => match layer {
            JsonV::Object(mb) => {
                lemma_remove_key_absent(mb, replace_key());
            },
            _ => {},
        },
    }
}

/// Law: merging well-formed layers gives a well-formed value.
pub proof fn law_merge_layer_wf(acc: JsonV, layer: JsonV)
    requires
        wf_json(acc),
        wf_json(layer),
    ensures
        wf_json(merge_layer_spec(acc, layer)),
{
    lemma_remove_all_wf(acc, replace_paths_spec(layer));
    let merged = merge_json(remove_all(acc, replace_paths_spec(layer)), layer);
    lemma_merge_wf(remove_all(acc, replace_paths_spec(layer)), layer);
    if let JsonV::Object(m) = merged {
        lemma_remove_key_wf(m, replace_key());
    }
}

} // verus!

verus! {

/// The directive key.
pub const REPLACE_KEY: &'static str = "$replace";

pub(crate) fn replace_key_str() -> (r: &'static str)
    ensures
        r@ == replace_key(),
{
    proof {
        reveal_strlit("$replace");
    }
    REPLACE_KEY
}

/// `v` with the member at key path `segs[from..]` removed.
fn remove_at_exec(v: &Json, segs: &Vec<String>, from: usize) -> (r: Json)
    requires
        from <= segs.len(),
    ensures
        r@ == remove_at(v@, views(segs@).skip(from as int)),
    decreases segs.len() - from,
{
    let ghost rest = views(segs@).skip(from as int);
    match v {
        Json::Object(m) => {
            if from == segs.len() {
                v.copy()
            } else if segs.len() - from == 1 {
                proof {
                    assert(rest[0] == segs@[from as int]@);
                }
                Json::Object(members_without(m, segs[from].as_str()))
            } else {
                proof {
                    assert(rest[0] == segs@[from as int]@);
                    assert(rest.drop_first() =~= views(segs@).skip(from + 1));
                }
                match v.get(segs[from].as_str()) {
                    Some(next) => {
                        let nn = remove_at_exec(next, segs, from + 1);
                        Json::Object(members_with(m, segs[from].as_str(), nn))
                    },
                    None => v.copy(),
                }
            }
        },
        _ => v.copy(),
    }
}

/// Removes a dot-separated path from an object tree; a missing path is a no-op. Only
/// object keys are addressable.
pub fn remove_path(value: &mut Json, path: &str)
    ensures
        final(value)@ == remove_at(old(value)@, segments(path@)),
        old(value).wf() ==> final(value).wf(),
{
    proof {
        if value.wf() {
            lemma_remove_at_wf(value@, segments(path@));
        }
    }
    let segs = split_on(path, '.');
    proof {
        assert(views(segs@).skip(0) =~= views(segs@));
    }
    let r = remove_at_exec(value, &segs, 0);
    *value = r;
}

/// The paths named by a layer's `$replace` array.
pub fn replace_paths(layer: &Json) -> (r: Vec<String>)
    ensures
        views(r@) == replace_paths_spec(layer@),
{
    match layer.get(replace_key_str()) {
        Some(Json::Array(items)) => strings_of(items),
        _ => {
            let out: Vec<String> = Vec::new();
            proof {
                assert(views(out@) =~= Seq::<Seq<char>>::empty());
            }
            out
        },
    }
}

/// The strings among `items`, in order.
pub fn strings_of(items: &Vec<Json>) -> (r: Vec<String>)
    ensures
        views(r@) == string_items(crate::json::view_items(items@)),
{
    let mut out: Vec<String> = Vec::new();
    proof {
        lemma_view_items(items@);
    }
    let ghost vi = crate::json::view_items(items@);
    let mut i: usize = 0;
    while i < items.len()
        invariant
            i <= items.len(),
            vi == crate::json::view_items(items@),
            vi.len() == items.len(),
            forall|j: int| 0 <= j < items.len() ==> #[trigger] vi[j] == items@[j]@,
            views(out@) == string_items(vi.take(i as int)),
        decreases items.len() - i,
    {
        proof {
            assert(vi.take(i + 1).drop_last() =~= vi.take(i as int));
            assert(vi.take(i + 1).last() == items@[i as int]@);
        }
        match &items[i] {
            Json::Str(s) => {
                let c = s.clone();
                proof {
                    assert(views(out@.push(c)) =~= views(out@).push(s@));
                }
                out.push(c);
            },
            _ => {},
        }
        i = i + 1;
    }
    proof {
        assert(vi.take(i as int) =~= vi);
    }
    out
}

/// Merges one settings layer onto the accumulated lower layers: the paths that the
/// layer's `$replace` names are dropped from the accumulator first, so the layer's value
/// wins whole there, and the directive itself is stripped from the result.
pub fn merge_layer(acc: &Json, layer: &Json) -> (r: Json)
    ensures
        r@ == merge_layer_spec(acc@, layer@),
        acc.wf() && layer.wf() ==> r.wf(),
{
    proof {
        if acc.wf() && layer.wf() {
            law_merge_layer_wf(acc@, layer@);
        }
    }
    let mut base = acc.copy();
    let paths = replace_paths(layer);
    let ghost ps = views(paths@);
    let mut i: usize = 0;
    while i < paths.len()
        invariant
            i <= paths.len(),
            ps == views(paths@),
            ps == replace_paths_spec(layer@),
            base@ == remove_all(acc@, ps.take(i as int)),
        decreases paths.len() - i,
    {
        proof {
            assert(ps.take(i + 1).drop_last() =~= ps.take(i as int));
            assert(ps.take(i + 1).last() == paths@[i as int]@);
        }
        remove_path(&mut base, paths[i].as_str());
        i = i + 1;
    }
    proof {
        assert(ps.take(i as int) =~= ps);
    }
    let merged = crate::json::deep_merge(&base, layer);
    match merged {
        Json::Object(m) => Json::Object(members_without(&m, replace_key_str())),
        other => other,
    }
}

/// The views of a slice of values.
pub open spec fn json_views(s: Seq<Json>) -> Seq<JsonV> {
    s.map_values(|j: Json| j@)
}

/// Merges the settings layers, lowest precedence first, onto an empty object.
pub fn merge_layers(layers: &[Json]) -> (r: Json)
    ensures
        r@ == merge_layers_spec(json_views(layers@)),
        (forall|i: int| 0 <= i < layers@.len() ==> #[trigger] layers@[i].wf()) ==> r.wf(),
{
    proof {
        if forall|i: int| 0 <= i < layers@.len() ==> #[trigger] layers@[i].wf() {
            let vs = json_views(layers@);
            assert forall|i: int| 0 <= i < vs.len() implies #[trigger] wf_json(vs[i]) by {
                assert(layers@[i].wf());
            }
            lemma_merge_layers_wf(vs);
        }
    }
    let mut acc = Json::object();
    let mut i: usize = 0;
    proof {
        assert(json_views(layers@).take(0) =~= Seq::<JsonV>::empty());
    }
    while i < layers.len()
        invariant
            i <= layers.len(),
            acc@ == merge_layers_spec(json_views(layers@).take(i as int)),
        decreases layers.len() - i,
    {
        proof {
            let vs = json_views(layers@);
            assert(vs.take(i + 1).drop_last() =~= vs.take(i as int));
            assert(vs.take(i + 1).last() == layers@[i as int]@);
        }
        acc = merge_layer(&acc, &layers[i]);
        i = i + 1;
    }
    proof {
        assert(json_views(layers@).take(i as int) =~= json_views(layers@));
    }
    acc
}

/// A layer that may be missing, as the layers it contributes: none or itself.
pub open spec fn optional_layer(o: Option<Json>) -> Seq<JsonV> {
    match o {
        Some(j) => seq![j@],
        None => Seq::empty(),
    }
}

/// A layer that is missing, or well formed.
pub open spec fn layer_wf(o: Option<Json>) -> bool {
    o matches Some(j) ==> j.wf()
}

/// The layers that exist, lowest precedence first: machine-wide, project, profile.
pub open spec fn present_layers(global: Option<Json>, project: Option<Json>, profile: Option<Json>) -> Seq<JsonV> {
    optional_layer(global) + optional_layer(project) + optional_layer(profile)
}

/// The effective settings of a run and the machine-wide slice of them. The first merges
/// every layer that exists: global, then project, then profile on top, so a project
/// cannot re-open what a profile closed. The second leaves the project's own layer out:
/// it is the part that is the same for every project on this machine.
pub fn resolve_layers(global: Option<Json>, project: Option<Json>, profile: Option<Json>) -> (r: (Json, Json))
    ensures
        r.0@ == merge_layers_spec(present_layers(global, project, profile)),
        r.1@ == merge_layers_spec(present_layers(global, None, profile)),
        layer_wf(global) && layer_wf(project) && layer_wf(profile) ==> r.0.wf() && r.1.wf(),
{
    let ghost g = global;
    let ghost p = project;
    let ghost f = profile;
    let mut layers: Vec<Json> = Vec::new();
    let mut shared: Vec<Json> = Vec::new();
    match global {
        Some(j) => {
            shared.push(j.copy());
            layers.push(j);
        },
        None => {},
    }
    match project {
        Some(j) => {
            layers.push(j);
        },
        None => {},
    }
    match profile {
        Some(j) => {
            shared.push(j.copy());
            layers.push(j);
        },
        None => {},
    }
    proof {
        assert(json_views(layers@) =~= present_layers(g, p, f));
        assert(json_views(shared@) =~= present_layers(g, None, f));
        if layer_wf(g) && layer_wf(p) && layer_wf(f) {
            assert forall|i: int| 0 <= i < layers@.len() implies #[trigger] layers@[i].wf() by {
                assert(json_views(layers@)[i] == layers@[i]@);
            }
            assert forall|i: int| 0 <= i < shared@.len() implies #[trigger] shared@[i].wf() by {
                assert(json_views(shared@)[i] == shared@[i]@);
            }
        }
    }
    let value = merge_layers(layers.as_slice());
    let machine = merge_layers(shared.as_slice());
    (value, machine)
}

/// Law: in the effective settings the profile is on top. Wherever the active profile holds
/// a scalar, the effective settings hold that scalar, whatever the machine-wide and project
/// layers hold there: a project cannot re-open what a profile closed. The machine-wide
/// slice, which leaves the project out, holds it too. (A path whose first key is the
/// directive itself is left out: that member is dropped from every result.)
pub proof fn law_profile_wins(global: Option<Json>, project: Option<Json>, profile: Json, q: Seq<Seq<char>>)
    requires
        layer_wf(global),
        layer_wf(project),
        profile.wf(),
        q.len() >= 1,
        q[0] != replace_key(),
        get_path(profile@, q) matches Some(x) && is_scalar(x),
    ensures
        get_path(merge_layers_spec(present_layers(global, project, Some(profile))), q) == get_path(profile@, q),
        get_path(merge_layers_spec(present_layers(global, None, Some(profile))), q) == get_path(profile@, q),
{
    let all = present_layers(global, project, Some(profile));
    let shared = present_layers(global, None, Some(profile));
    assert(all.last() == profile@);
    assert(shared.last() == profile@);
    assert forall|i: int| 0 <= i < all.len() implies #[trigger] wf_json(all[i]) by {}
    assert forall|i: int| 0 <= i < shared.len() implies #[trigger] wf_json(shared[i]) by {}
    law_last_layer_scalar_wins(all, q);
    law_last_layer_scalar_wins(shared, q);
}

/// Law: with no active profile, the project sits on top of the machine-wide settings:
/// wherever the project holds a scalar, the effective settings hold it.
pub proof fn law_project_over_global(global: Option<Json>, project: Json, q: Seq<Seq<char>>)
    requires
        layer_wf(global),
        project.wf(),
        q.len() >= 1,
        q[0] != replace_key(),
        get_path(project@, q) matches Some(x) && is_scalar(x),
    ensures
        get_path(merge_layers_spec(present_layers(global, Some(project), None)), q) == get_path(project@, q),
{
    let all = present_layers(global, Some(project), None);
    assert(all.last() == project@);
    assert forall|i: int| 0 <= i < all.len() implies #[trigger] wf_json(all[i]) by {}
    law_last_layer_scalar_wins(all, q);
}

} // verus!
