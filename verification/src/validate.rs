//! Checks on a settings layer: its schema, through the `jsonschema` crate, and then every
//! `$replace` entry, which must name a path that the schema knows, since a path that
//! resolves to nothing silently disables the directive.
use vstd::prelude::*;
use vstd::multiset::Multiset;
use crate::json::{Json, JsonV, member};
use crate::merge::{replace_key, segments, string_items};
use crate::text::{split_spec, split_on, views, concat};
use crate::jsontext::{json_text, to_json_text};
use crate::image::pair_views;

verus! {

/// Whether the schema node says that its free-form keys hold values of some schema.
pub open spec fn open_map(node: JsonV) -> bool {
    member(node, "additionalProperties"@) matches Some(JsonV::Object(_))
}

/// Walks key path `segs` through the schema's `properties`; a free-form map swallows the
/// rest of the path, since its keys are user-defined.
pub open spec fn schema_walk(node: JsonV, segs: Seq<Seq<char>>) -> bool
    decreases segs.len(),
{
    if segs.len() == 0 {
        true
    } else {
        match member(node, "properties"@) {
            Some(props) => match member(props, segs[0]) {
                Some(next) => schema_walk(next, segs.drop_first()),
                None => open_map(node),
            },
            None => open_map(node),
        }
    }
}

fn is_open_map(node: &Json) -> (r: bool)
    ensures
        r == open_map(node@),
{
    match node.get("additionalProperties") {
        Some(Json::Object(_)) => true,
        _ => false,
    }
}

fn walk_from(node: &Json, segs: &Vec<String>, from: usize) -> (r: bool)
    requires
        from <= segs.len(),
    ensures
        r == schema_walk(node@, views(segs@).skip(from as int)),
    decreases segs.len() - from,
{
    let ghost rest = views(segs@).skip(from as int);
    if from == segs.len() {
        return true;
    }
    proof {
        assert(rest[0] == segs@[from as int]@);
        assert(rest.drop_first() =~= views(segs@).skip(from + 1));
    }
    match node.get("properties") {
        Some(props) => match props.get(segs[from].as_str()) {
            Some(next) => walk_from(next, segs, from + 1),
            None => is_open_map(node),
        },
        None => is_open_map(node),
    }
}

/// Whether a dot-separated path addresses a key the schema knows.
pub fn schema_knows_path(schema: &Json, path: &str) -> (r: bool)
    ensures
        r == schema_walk(schema@, segments(path@)),
{
    let segs = split_on(path, '.');
    proof {
        assert(views(segs@).skip(0) =~= views(segs@));
    }
    walk_from(schema, &segs, 0)
}

/// The `{:?}` rendering of a string: quoted, with escapes.
pub uninterp spec fn debug_quoted(s: Seq<char>) -> Seq<char>;

/// `format!("{s:?}")` on a string.
#[verifier::external_body]
fn quoted(s: &str) -> (r: String)
    ensures
        r@ == debug_quoted(s@),
{
    format!("{s:?}")
}

/// The `$replace` entries of a layer that the schema does not know, in order.
pub open spec fn unknown_entries(schema: JsonV, items: Seq<Seq<char>>) -> Seq<Seq<char>>
    decreases items.len(),
{
    if items.len() == 0 {
        Seq::empty()
    } else {
        let r = unknown_entries(schema, items.drop_last());
        if schema_walk(schema, segments(items.last())) {
            r
        } else {
            r.push(items.last())
        }
    }
}

/// The `$replace` entries of a layer, when it has the directive as an array.
pub open spec fn directive_entries(value: JsonV) -> Option<Seq<Seq<char>>> {
    match member(value, replace_key()) {
        Some(JsonV::Array(items)) => Some(string_items(items)),
        _ => None,
    }
}

/// One line of the report per unknown entry.
pub open spec fn unknown_lines(bad: Seq<Seq<char>>) -> Seq<char>
    decreases bad.len(),
{
    if bad.len() == 0 {
        Seq::empty()
    } else {
        let head = unknown_lines(bad.drop_last());
        let line = "  - unknown path: "@ + debug_quoted(bad.last());
        if bad.len() == 1 {
            line
        } else {
            head + seq!['\n'] + line
        }
    }
}

/// The message for a layer whose directive names unknown paths.
pub open spec fn replace_error(file: Seq<char>, bad: Seq<Seq<char>>) -> Seq<char> {
    "invalid \"$replace\" in "@ + file + ":\n"@ + unknown_lines(bad)
        + "\n  Entries are dot-separated settings keys, one per array item \u{2014} e.g. [\"environment\", \"files.incl"@
        + "ude\"]."@
}

/// Checks that every `$replace` entry of `value` addresses a key the schema knows; the
/// error names every entry that does not, and the file (`file`) it came from.
pub fn validate_replace_paths(schema: &Json, value: &Json, file: &str) -> (r: Result<(), String>)
    ensures
        match directive_entries(value@) {
            None => r is Ok,
            Some(items) => {
                let bad = unknown_entries(schema@, items);
                if bad.len() == 0 {
                    r is Ok
                } else {
                    r matches Err(m) && m@ == replace_error(file@, bad)
                }
            },
        },
{
    let items = match value.get(crate::merge::replace_key_str()) {
        Some(Json::Array(_)) => crate::merge::replace_paths(value),
        _ => {
            return Ok(());
        },
    };
    let ghost iv = views(items@);
    let mut bad: Vec<String> = Vec::new();
    let mut i: usize = 0;
    proof {
        assert(iv.take(0) =~= Seq::<Seq<char>>::empty());
        assert(views(bad@) =~= Seq::<Seq<char>>::empty());
    }
    while i < items.len()
        invariant
            i <= items.len(),
            iv == views(items@),
            views(bad@) == unknown_entries(schema@, iv.take(i as int)),
        decreases items.len() - i,
    {
        proof {
            assert(iv.take(i + 1).drop_last() =~= iv.take(i as int));
            assert(iv.take(i + 1).last() == items@[i as int]@);
        }
        if !schema_knows_path(schema, items[i].as_str()) {
            let c = items[i].clone();
            proof {
                assert(views(bad@.push(c)) =~= views(bad@).push(items@[i as int]@));
            }
            bad.push(c);
        }
        i = i + 1;
    }
    proof {
        assert(iv.take(i as int) =~= iv);
    }
    if bad.len() == 0 {
        return Ok(());
    }
    let mut lines = String::new();
    let mut k: usize = 0;
    let ghost bv = views(bad@);
    proof {
        assert(bv.take(0) =~= Seq::<Seq<char>>::empty());
    }
    while k < bad.len()
        invariant
            k <= bad.len(),
            bv == views(bad@),
            lines@ == unknown_lines(bv.take(k as int)),
        decreases bad.len() - k,
    {
        proof {
            assert(bv.take(k + 1).drop_last() =~= bv.take(k as int));
            assert(bv.take(k + 1).last() == bad@[k as int]@);
            reveal_strlit("  - unknown path: ");
        }
        if k > 0 {
            crate::text::push_char(&mut lines, '\n');
        }
        lines.append("  - unknown path: ");
        let q = quoted(bad[k].as_str());
        lines.append(q.as_str());
        k = k + 1;
    }
    proof {
        assert(bv.take(k as int) =~= bv);
    }
    let m = concat("invalid \"$replace\" in ", file);
    let m = concat(m.as_str(), ":\n");
    let m = concat(m.as_str(), lines.as_str());
    let m = concat(m.as_str(), "\n  Entries are dot-separated settings keys, one per array item \u{2014} e.g. [\"environment\", \"files.incl");
    let m = concat(m.as_str(), "ude\"].");
    Err(m)
}

/// What checking a settings layer against the schema says: the schema's complaints, one
/// line each, or what `$replace` has to say.
pub open spec fn replace_verdict(schema: JsonV, value: JsonV, file: Seq<char>) -> Result<(), Seq<char>> {
    match directive_entries(value) {
        None => Ok(()),
        Some(items) => {
            let bad = unknown_entries(schema, items);
            if bad.len() == 0 {
                Ok(())
            } else {
                Err(replace_error(file, bad))
            }
        },
    }
}

/// The message for a layer the schema rejects.
pub open spec fn schema_failure(file: Seq<char>, lines: Seq<Seq<char>>) -> Seq<char> {
    "invalid settings in "@ + file + ":\n"@ + crate::lines::join_spec(lines, "\n"@)
}

/// The verdict on a settings layer: the schema's violations (`violations`, one formatted
/// line each) fail it first; a clean layer must still pass the `$replace` check.
pub fn settings_verdict(file: &str, violations: &Vec<String>, schema: &Json, value: &Json) -> (r: Result<(), String>)
    ensures
        violations@.len() > 0 ==> (r matches Err(m) && m@ == schema_failure(file@, views(violations@))),
        violations@.len() == 0 ==> match replace_verdict(schema@, value@, file@) {
            Ok(()) => r is Ok,
            Err(e) => r matches Err(m) && m@ == e,
        },
{
    if violations.len() > 0 {
        let m = concat("invalid settings in ", file);
        let m = concat(m.as_str(), ":\n");
        let body = crate::lines::join_with(violations, "\n");
        return Err(concat(m.as_str(), body.as_str()));
    }
    validate_replace_paths(schema, value, file)
}

/// One line of a schema violation: where in the document, and what is wrong.
pub fn violation_line(instance_path: &str, message: &str) -> (r: String)
    ensures
        r@ == "  - "@ + instance_path@ + ": "@ + message@,
{
    let l = concat("  - ", instance_path);
    let l = concat(l.as_str(), ": ");
    concat(l.as_str(), message)
}

/// What the `jsonschema` crate finds when it checks a document against a schema, both given
/// as JSON text: `None` where either text is no JSON or the schema does not compile,
/// otherwise the violations, each as the instance path and the message.
pub uninterp spec fn schema_check(schema: Seq<char>, document: Seq<char>) -> Option<Multiset<(Seq<char>, Seq<char>)>>;

/// Parses both texts (`serde_json::from_str`), compiles the schema
/// (`jsonschema::validator_for`) and collects what `iter_errors` reports on the document,
/// each error as its instance path and its message. The contract claims only that the
/// outcome is `schema_check` of the two texts; the order in which the errors come is not
/// stated.
#[verifier::external_body]
fn schema_violations(schema: &str, document: &str) -> (r: Option<Vec<(String, String)>>)
    ensures
        match schema_check(schema@, document@) {
            None => r is None,
            Some(found) => r matches Some(v) && pair_views(v@).to_multiset() == found,
        },
{
    let schema: serde_json::Value = serde_json::from_str(schema).ok()?;
    let document: serde_json::Value = serde_json::from_str(document).ok()?;
    let validator = jsonschema::validator_for(&schema).ok()?;
    Some(validator.iter_errors(&document).map(|e| (e.instance_path().to_string(), e.to_string())).collect())
}

/// The report line of each violation, in order.
pub open spec fn violation_lines(v: Seq<(Seq<char>, Seq<char>)>) -> Seq<Seq<char>> {
    v.map_values(|p: (Seq<char>, Seq<char>)| "  - "@ + p.0 + ": "@ + p.1)
}

/// The verdict on a layer given the schema's violations as report lines: any of them fail
/// it; a clean layer must still pass the `$replace` check.
pub open spec fn layer_verdict(file: Seq<char>, lines: Seq<Seq<char>>, schema: JsonV, value: JsonV) -> Result<(), Seq<char>> {
    if lines.len() > 0 {
        Err(schema_failure(file, lines))
    } else {
        replace_verdict(schema, value, file)
    }
}

/// A verdict with its message as text.
pub open spec fn verdict_view(r: Result<(), String>) -> Result<(), Seq<char>> {
    match r {
        Ok(()) => Ok(()),
        Err(m) => Err(m@),
    }
}

/// The message for a schema that cannot be used.
pub open spec fn unusable_schema() -> Seq<char> {
    "the settings schema is not a usable JSON Schema"@
}

/// Checks a settings layer of file `file` against the schema, then its `$replace` paths.
/// The schema's violations, in the order the validator reports them, fail the layer with
/// one line each; a layer the schema accepts must still name only known paths.
pub fn validate_settings(file: &str, schema: &Json, value: &Json) -> (r: Result<(), String>)
    ensures
        match schema_check(json_text(schema@), json_text(value@)) {
            None => r matches Err(m) && m@ == unusable_schema(),
            Some(found) => exists|v: Seq<(Seq<char>, Seq<char>)>|
                #[trigger] v.to_multiset() == found && verdict_view(r) == layer_verdict(
                    file@,
                    violation_lines(v),
                    schema@,
                    value@,
                ),
        },
{
    let schema_text = to_json_text(schema);
    let document_text = to_json_text(value);
    let found = match schema_violations(schema_text.as_str(), document_text.as_str()) {
        Some(v) => v,
        None => {
            return Err("the settings schema is not a usable JSON Schema".to_owned());
        },
    };
    let mut lines: Vec<String> = Vec::new();
    let mut i: usize = 0;
    while i < found.len()
        invariant
            i <= found.len(),
            views(lines@) == violation_lines(pair_views(found@)).take(i as int),
        decreases found.len() - i,
    {
        let line = violation_line(found[i].0.as_str(), found[i].1.as_str());
        proof {
            assert(views(lines@.push(line)) =~= views(lines@).push(line@));
        }
        lines.push(line);
        proof {
            assert(views(lines@) =~= violation_lines(pair_views(found@)).take(i + 1));
        }
        i = i + 1;
    }
    proof {
        assert(violation_lines(pair_views(found@)).take(i as int) =~= violation_lines(pair_views(found@)));
    }
    let r = settings_verdict(file, &lines, schema, value);
    proof {
        let v = pair_views(found@);
        assert(v.to_multiset() == schema_check(json_text(schema@), json_text(value@))->Some_0);
    }
    r
}

} // verus!
