//! Host and container path resolution: environment variables, `~`, relative paths, and the
//! file exclusions and inclusions of the settings turned into volume mounts.
use vstd::prelude::*;
use crate::text::{chars_of, push_char, string_of, str_eq, starts_with, has_char, concat, skip_chars};

verus! {

/// Whether `char::is_alphanumeric` holds of `c` (Unicode `Alphabetic` or `Numeric`).
pub uninterp spec fn char_alphanumeric(c: char) -> bool;

/// `char::is_alphanumeric`. Among ASCII characters it holds exactly of the letters and
/// the digits: the ASCII characters with the `Alphabetic` property are the letters, and
/// those with the `Numeric` property are the digits.
#[verifier::external_body]
fn is_alphanumeric(c: char) -> (r: bool)
    ensures
        r == char_alphanumeric(c),
        (c as u32) < 128 ==> (r <==> is_ascii_alnum(c)),
{
    c.is_alphanumeric()
}

/// An ASCII letter or digit.
pub open spec fn is_ascii_alnum(c: char) -> bool {
    ('a' <= c && c <= 'z') || ('A' <= c && c <= 'Z') || ('0' <= c && c <= '9')
}

/// A character that may continue an unbraced `$NAME`: a letter, a digit or `_`. Among
/// ASCII characters these are the letters, the digits and `_`; beyond ASCII, whatever
/// `char::is_alphanumeric` accepts.
pub open spec fn is_name_char(c: char) -> bool {
    if (c as u32) < 128 {
        is_ascii_alnum(c) || c == '_'
    } else {
        char_alphanumeric(c)
    }
}

/// Length of the leading run of name characters.
pub open spec fn name_run(s: Seq<char>) -> nat
    decreases s.len(),
{
    if s.len() > 0 && is_name_char(s[0]) {
        1 + name_run(s.drop_first())
    } else {
        0
    }
}

/// Length of the leading run of characters other than `}`.
pub open spec fn brace_run(s: Seq<char>) -> nat
    decreases s.len(),
{
    if s.len() > 0 && s[0] != '}' {
        1 + brace_run(s.drop_first())
    } else {
        0
    }
}

pub proof fn lemma_runs_bounded(s: Seq<char>)
    ensures
        name_run(s) <= s.len(),
        brace_run(s) <= s.len(),
    decreases s.len(),
{
    if s.len() > 0 {
        lemma_runs_bounded(s.drop_first());
    }
}

/// The value of the first variable named `k`.
pub open spec fn env_get(env: Seq<(Seq<char>, Seq<char>)>, k: Seq<char>) -> Option<Seq<char>>
    decreases env.len(),
{
    if env.len() == 0 {
        None
    } else if env[0].0 == k {
        Some(env[0].1)
    } else {
        env_get(env.drop_first(), k)
    }
}

/// The views of an environment given as name/value pairs.
pub open spec fn env_view(env: Seq<(String, String)>) -> Seq<(Seq<char>, Seq<char>)> {
    env.map_values(|p: (String, String)| (p.0@, p.1@))
}

/// Whether a `$` reference is written `${...}`.
pub open spec fn is_braced(t: Seq<char>) -> bool {
    t.len() > 1 && t[1] == '{'
}

/// What follows the `$` (and the `{`) of a reference.
pub open spec fn var_rest(t: Seq<char>) -> Seq<char> {
    if is_braced(t) {
        t.skip(2)
    } else {
        t.skip(1)
    }
}

/// Length of the variable name of a reference.
pub open spec fn var_len(t: Seq<char>) -> nat {
    if is_braced(t) {
        brace_run(var_rest(t))
    } else {
        name_run(var_rest(t))
    }
}

/// The variable name of a reference.
pub open spec fn var_name(t: Seq<char>) -> Seq<char> {
    var_rest(t).take(var_len(t) as int)
}

/// What follows a reference (a closing `}` is part of it).
pub open spec fn var_after(t: Seq<char>) -> Seq<char> {
    if is_braced(t) && var_len(t) < var_rest(t).len() {
        var_rest(t).skip(var_len(t) + 1int)
    } else {
        var_rest(t).skip(var_len(t) as int)
    }
}

/// What a reference expands to: the variable's value; when the variable is not set, the
/// reference again as `$NAME` or `${NAME}`, so an unterminated `${NAME` gets its closing
/// `}`; when no name follows, `$`, or `${}` after `${`.
pub open spec fn var_piece(t: Seq<char>, env: Seq<(Seq<char>, Seq<char>)>) -> Seq<char> {
    let name = var_name(t);
    if var_len(t) == 0 {
        if is_braced(t) {
            seq!['$', '{', '}']
        } else {
            seq!['$']
        }
    } else {
        match env_get(env, name) {
            Some(v) => v,
            None => if is_braced(t) {
                seq!['$', '{'] + name + seq!['}']
            } else {
                seq!['$'] + name
            },
        }
    }
}

/// `s` with each `$NAME` and `${NAME}` replaced by the value of that variable in `env`.
/// A variable that is not set is written back as a reference, as `var_piece` says; a `$`
/// with no name after it stays.
pub open spec fn expand_spec(s: Seq<char>, env: Seq<(Seq<char>, Seq<char>)>) -> Seq<char>
    decreases s.len(),
{
    if s.len() == 0 {
        s
    } else if s[0] != '$' {
        seq![s[0]] + expand_spec(s.drop_first(), env)
    } else {
        proof {
            lemma_runs_bounded(var_rest(s));
        }
        var_piece(s, env) + expand_spec(var_after(s), env)
    }
}

fn env_lookup(env: &[(String, String)], k: &str) -> (r: Option<String>)
    ensures
        r matches Some(v) ==> env_get(env_view(env@), k@) == Some(v@),
        r is None ==> env_get(env_view(env@), k@) is None,
{
    let ghost ev = env_view(env@);
    let mut i: usize = 0;
    proof {
        assert(ev.skip(0) =~= ev);
    }
    while i < env.len()
        invariant
            i <= env.len(),
            ev == env_view(env@),
            env_get(ev.skip(i as int), k@) == env_get(ev, k@),
        decreases env.len() - i,
    {
        proof {
            assert(ev.skip(i as int)[0] == (env@[i as int].0@, env@[i as int].1@));
            assert(ev.skip(i as int).drop_first() =~= ev.skip(i + 1));
        }
        if str_eq(env[i].0.as_str(), k) {
            return Some(env[i].1.clone());
        }
        i = i + 1;
    }
    None
}

fn append_chars(out: &mut String, cs: &Vec<char>, from: usize, to: usize)
    requires
        from <= to <= cs.len(),
    ensures
        final(out)@ == old(out)@ + cs@.subrange(from as int, to as int),
{
    let piece = string_of(cs, from, to);
    out.append(piece.as_str());
}

/// The expansion of the `$` reference at `cs[i]`, and the index just past it.
fn expand_reference(cs: &Vec<char>, i: usize, env: &[(String, String)]) -> (r: (String, usize))
    requires
        i < cs.len(),
        cs@[i as int] == '$',
    ensures
        i < r.1 <= cs.len(),
        r.0@ == var_piece(cs@.skip(i as int), env_view(env@)),
        cs@.skip(r.1 as int) == var_after(cs@.skip(i as int)),
{
    let ghost s = cs@;
    let ghost t = s.skip(i as int);
    let braced = i + 1 < cs.len() && cs[i + 1] == '{';
    let start: usize = if braced {
        i + 2
    } else {
        i + 1
    };
    let ghost rest = s.skip(start as int);
    proof {
        assert(braced == is_braced(t));
        if braced {
            assert(t.skip(2) =~= rest);
        } else {
            assert(t.skip(1) =~= rest);
        }
        assert(var_rest(t) == rest);
    }
    let mut j: usize = start;
    if braced {
        while j < cs.len() && cs[j] != '}'
            invariant
                start <= j <= cs.len(),
                s == cs@,
                rest == s.skip(start as int),
                brace_run(rest) == (j - start) + brace_run(s.skip(j as int)),
            decreases cs.len() - j,
        {
            proof {
                assert(s.skip(j as int).drop_first() =~= s.skip(j + 1));
            }
            j = j + 1;
        }
    } else {
        while j < cs.len() && (is_alphanumeric(cs[j]) || cs[j] == '_')
            invariant
                start <= j <= cs.len(),
                s == cs@,
                rest == s.skip(start as int),
                name_run(rest) == (j - start) + name_run(s.skip(j as int)),
            decreases cs.len() - j,
        {
            proof {
                assert(s.skip(j as int).drop_first() =~= s.skip(j + 1));
            }
            j = j + 1;
        }
    }
    let n = j - start;
    proof {
        assert(var_len(t) == n);
        assert(rest.take(n as int) =~= cs@.subrange(start as int, j as int));
    }
    let name = string_of(cs, start, j);
    let next: usize = if braced && j < cs.len() {
        j + 1
    } else {
        j
    };
    proof {
        if braced && j < cs.len() {
            assert(rest.skip(n + 1) =~= s.skip(next as int));
        } else {
            assert(rest.skip(n as int) =~= s.skip(next as int));
        }
    }
    let mut out = String::new();
    if n == 0 {
        push_char(&mut out, '$');
        if braced {
            push_char(&mut out, '{');
            push_char(&mut out, '}');
        }
    } else {
        match env_lookup(env, name.as_str()) {
            Some(v) => {
                out.append(v.as_str());
            },
            None => {
                push_char(&mut out, '$');
                if braced {
                    push_char(&mut out, '{');
                }
                out.append(name.as_str());
                if braced {
                    push_char(&mut out, '}');
                }
            },
        }
    }
    proof {
        assert(out@ =~= var_piece(t, env_view(env@)));
    }
    (out, next)
}

/// Expands environment variables, `$VAR` and `${VAR}`, against `env`; variables that are
/// not set are left unexpanded.
pub fn expand_env_vars(input: &str, env: &[(String, String)]) -> (r: String)
    ensures
        r@ == expand_spec(input@, env_view(env@)),
{
    let cs = chars_of(input);
    let ghost s = input@;
    let ghost ev = env_view(env@);
    let mut out = String::new();
    let mut i: usize = 0;
    proof {
        assert(s.skip(0) =~= s);
    }
    while i < cs.len()
        invariant
            i <= cs.len(),
            cs@ == s,
            ev == env_view(env@),
            out@ + expand_spec(s.skip(i as int), ev) == expand_spec(s, ev),
        decreases cs.len() - i,
    {
        let ghost t = s.skip(i as int);
        let ghost before = out@;
        if cs[i] != '$' {
            proof {
                assert(t[0] == cs@[i as int]);
                assert(t.drop_first() =~= s.skip(i + 1));
            }
            push_char(&mut out, cs[i]);
            proof {
                assert(out@ + expand_spec(s.skip(i + 1), ev) =~= before + expand_spec(t, ev));
            }
            i = i + 1;
        } else {
            proof {
                assert(t[0] == '$');
            }
            let (piece, next) = expand_reference(&cs, i, env);
            out.append(piece.as_str());
            proof {
                assert(out@ + expand_spec(s.skip(next as int), ev) =~= before + expand_spec(t, ev));
            }
            i = next;
        }
    }
    proof {
        assert(s.skip(i as int) =~= Seq::<char>::empty());
        assert(out@ + Seq::<char>::empty() =~= out@);
    }
    out
}

/// `~` alone becomes the home directory, `~/rest` becomes `home/rest`; anything else, or
/// no known home, leaves the input as it is.
pub open spec fn tilde_spec(s: Seq<char>, home: Option<Seq<char>>) -> Seq<char> {
    match home {
        Some(h) => if s == seq!['~'] {
            h
        } else if s.len() >= 2 && s[0] == '~' && s[1] == '/' {
            h + seq!['/'] + s.skip(2)
        } else {
            s
        },
        None => s,
    }
}

/// Expands a `~` prefix to the given home directory.
pub fn expand_tilde(input: &str, home: Option<&str>) -> (r: String)
    ensures
        r@ == tilde_spec(input@, match home {
            Some(h) => Some(h@),
            None => None,
        }),
{
    proof {
        reveal_strlit("~");
        reveal_strlit("~/");
        assert("~"@ =~= seq!['~']);
        assert("~/"@ =~= seq!['~', '/']);
    }
    match home {
        Some(h) => {
            if str_eq(input, "~") {
                h.to_owned()
            } else if starts_with(input, "~/") {
                proof {
                    assert(input@[0] == input@.take(2)[0]);
                    assert(input@[1] == input@.take(2)[1]);
                }
                let mut r = h.to_owned();
                push_char(&mut r, '/');
                let rest = skip_chars(input, 2);
                r.append(rest.as_str());
                r
            } else {
                proof {
                    if input@.len() >= 2 && input@[0] == '~' && input@[1] == '/' {
                        assert(input@.take(2) =~= "~/"@);
                    }
                }
                input.to_owned()
            }
        },
        None => input.to_owned(),
    }
}

/// A path that starts at the root.
pub open spec fn is_absolute(p: Seq<char>) -> bool {
    p.len() > 0 && p[0] == '/'
}

/// `Path::join`: an absolute `p` replaces `base`; otherwise `p` follows `base` after one
/// separator (none is added when `base` is empty or already ends in one).
pub open spec fn join_spec(base: Seq<char>, p: Seq<char>) -> Seq<char> {
    if is_absolute(p) {
        p
    } else if base.len() == 0 || base.last() == '/' {
        base + p
    } else {
        base + seq!['/'] + p
    }
}

/// `Path::join` on path strings.
pub fn join(base: &str, p: &str) -> (r: String)
    ensures
        r@ == join_spec(base@, p@),
{
    let cp = chars_of(p);
    if cp.len() > 0 && cp[0] == '/' {
        return p.to_owned();
    }
    let cb = chars_of(base);
    let mut r = base.to_owned();
    if cb.len() > 0 && cb[cb.len() - 1] != '/' {
        push_char(&mut r, '/');
    }
    r.append(p);
    r
}

/// Host path resolution: environment variables, then `~`, then relative to `base_dir`.
pub open spec fn host_path_spec(
    input: Seq<char>,
    base_dir: Seq<char>,
    env: Seq<(Seq<char>, Seq<char>)>,
    home: Option<Seq<char>>,
) -> Seq<char> {
    join_spec(base_dir, tilde_spec(expand_spec(input, env), home))
}

/// Full host path resolution: env vars → tilde → relative-to-absolute against `base_dir`.
pub fn resolve_host_path(input: &str, base_dir: &str, env: &[(String, String)], home: Option<&str>) -> (r: String)
    ensures
        r@ == host_path_spec(input@, base_dir@, env_view(env@), match home {
            Some(h) => Some(h@),
            None => None,
        }),
{
    let expanded = expand_env_vars(input, env);
    let expanded = expand_tilde(expanded.as_str(), home);
    join(base_dir, expanded.as_str())
}

/// Container path resolution: environment variables, `~` as the sandbox home, then
/// relative to the project directory.
pub open spec fn container_path_spec(
    input: Seq<char>,
    sandbox_home: Seq<char>,
    project_dir: Seq<char>,
    env: Seq<(Seq<char>, Seq<char>)>,
) -> Seq<char> {
    join_spec(project_dir, tilde_spec(expand_spec(input, env), Some(sandbox_home)))
}

/// Resolves a container path: env vars → tilde (the sandbox home) → absolute.
pub fn resolve_container_path(
    input: &str,
    sandbox_home: &str,
    project_dir: &str,
    env: &[(String, String)],
) -> (r: String)
    ensures
        r@ == container_path_spec(input@, sandbox_home@, project_dir@, env_view(env@)),
{
    let expanded = expand_env_vars(input, env);
    let expanded = expand_tilde(expanded.as_str(), Some(sandbox_home));
    join(project_dir, expanded.as_str())
}

/// Whether a string holds a glob metacharacter (`*`, `?` or `[`).
pub fn has_glob_chars(s: &str) -> (r: bool)
    ensures
        r == (s@.contains('*') || s@.contains('?') || s@.contains('[')),
{
    has_char(s, '*') || has_char(s, '?') || has_char(s, '[')
}

/// `s` without its trailing slashes.
pub open spec fn strip_slash_spec(s: Seq<char>) -> Seq<char>
    decreases s.len(),
{
    if s.len() > 0 && s.last() == '/' {
        strip_slash_spec(s.drop_last())
    } else {
        s
    }
}

/// Strips trailing slashes from a path string.
pub fn strip_trailing_slash(s: &str) -> (r: String)
    ensures
        r@ == strip_slash_spec(s@),
{
    let cs = chars_of(s);
    let mut j = cs.len();
    proof {
        assert(s@.take(j as int) =~= s@);
    }
    while j > 0 && cs[j - 1] == '/'
        invariant
            j <= cs.len(),
            cs@ == s@,
            strip_slash_spec(s@.take(j as int)) == strip_slash_spec(s@),
        decreases j,
    {
        proof {
            assert(s@.take(j as int).drop_last() =~= s@.take(j - 1));
        }
        j = j - 1;
    }
    proof {
        assert(s@.take(j as int) =~= cs@.subrange(0, j as int));
    }
    string_of(&cs, 0, j)
}

/// The full pattern a glob runs: an absolute pattern as it is, else under `source_dir`.
pub open spec fn glob_pattern_spec(pattern: Seq<char>, source_dir: Seq<char>) -> Seq<char> {
    if is_absolute(pattern) {
        pattern
    } else {
        source_dir + seq!['/'] + pattern
    }
}

/// The pattern `expand_glob` hands to the glob matcher.
pub fn glob_pattern(pattern: &str, source_dir: &str) -> (r: String)
    ensures
        r@ == glob_pattern_spec(pattern@, source_dir@),
{
    let cp = chars_of(pattern);
    if cp.len() > 0 && cp[0] == '/' {
        pattern.to_owned()
    } else {
        let mut r = source_dir.to_owned();
        push_char(&mut r, '/');
        r.append(pattern);
        r
    }
}


/// What the file system holds at a path.
#[derive(Clone, Copy, Debug, PartialEq, Eq, Structural)]
pub enum PathKind {
    File,
    Directory,
    Other,
}

/// A resolved file exclusion, ready to become a volume mount.
#[derive(Clone, Debug)]
pub enum ExclusionMount {
    /// File hidden under `/dev/null`.
    File(String),
    /// Directory hidden under an empty directory.
    Directory(String),
}

/// An exclusion mount as path characters.
pub enum MountView {
    File(Seq<char>),
    Directory(Seq<char>),
}

impl ExclusionMount {
    pub open spec fn view_mount(&self) -> MountView {
        match self {
            ExclusionMount::File(p) => MountView::File(p@),
            ExclusionMount::Directory(p) => MountView::Directory(p@),
        }
    }

    /// The empty directory that stands in for an excluded directory, under `tmp_dir`.
    pub fn mount_subdir(&self, tmp_dir: &str) -> (r: Option<String>)
        ensures
            match self.view_mount() {
                MountView::File(_) => r is None,
                MountView::Directory(p) => r matches Some(d) && d@ == subdir_spec(tmp_dir@, p),
            },
    {
        match self {
            ExclusionMount::File(_) => None,
            ExclusionMount::Directory(path) => {
                proof {
                    reveal_strlit("excluded-dirs");
                }
                let base = join(tmp_dir, "excluded-dirs");
                let rel = strip_leading_slashes(path.as_str());
                Some(join(base.as_str(), rel.as_str()))
            },
        }
    }

    /// The compose volume entry.
    pub fn to_volume_mount(&self, tmp_dir: &str) -> (r: String)
        ensures
            r@ == match self.view_mount() {
                MountView::File(p) => "/dev/null:"@ + p + ":ro"@,
                MountView::Directory(p) => subdir_spec(tmp_dir@, p) + seq![':'] + p,
            },
    {
        match self {
            ExclusionMount::File(path) => {
                let mut r = String::new();
                r.append("/dev/null:");
                r.append(path.as_str());
                r.append(":ro");
                r
            },
            ExclusionMount::Directory(path) => {
                let sub = self.mount_subdir(tmp_dir);
                let mut r = sub.unwrap();
                push_char(&mut r, ':');
                r.append(path.as_str());
                r
            },
        }
    }
}

/// `s` without its leading slashes.
pub open spec fn strip_leading_spec(s: Seq<char>) -> Seq<char>
    decreases s.len(),
{
    if s.len() > 0 && s[0] == '/' {
        strip_leading_spec(s.drop_first())
    } else {
        s
    }
}

fn strip_leading_slashes(s: &str) -> (r: String)
    ensures
        r@ == strip_leading_spec(s@),
{
    let cs = chars_of(s);
    let mut i: usize = 0;
    proof {
        assert(s@.skip(0) =~= s@);
    }
    while i < cs.len() && cs[i] == '/'
        invariant
            i <= cs.len(),
            cs@ == s@,
            strip_leading_spec(s@.skip(i as int)) == strip_leading_spec(s@),
        decreases cs.len() - i,
    {
        proof {
            assert(s@.skip(i as int).drop_first() =~= s@.skip(i + 1));
        }
        i = i + 1;
    }
    proof {
        assert(s@.skip(i as int) =~= cs@.subrange(i as int, cs.len() as int));
    }
    string_of(&cs, i, cs.len())
}

/// `tmp_dir/excluded-dirs/<path without its leading slashes>`.
pub open spec fn subdir_spec(tmp_dir: Seq<char>, p: Seq<char>) -> Seq<char> {
    join_spec(
        join_spec(tmp_dir, seq!['e', 'x', 'c', 'l', 'u', 'd', 'e', 'd', '-', 'd', 'i', 'r', 's']),
        strip_leading_spec(p),
    )
}

/// Where the file system is asked about one exclusion entry: a glob pattern to expand,
/// or a single path to look at.
pub enum ExclusionTarget {
    Glob(String),
    Path(String),
}

/// The entry with its trailing slashes dropped and its variables expanded.
pub open spec fn exclusion_entry_spec(entry: Seq<char>, env: Seq<(Seq<char>, Seq<char>)>) -> Seq<char> {
    expand_spec(strip_slash_spec(entry), env)
}

/// What to ask the file system for one exclusion entry.
pub fn exclusion_target(entry: &str, project_dir: &str, env: &[(String, String)], home: Option<&str>) -> (r: ExclusionTarget)
    ensures
        ({
            let e = exclusion_entry_spec(entry@, env_view(env@));
            if e.contains('*') || e.contains('?') || e.contains('[') {
                r matches ExclusionTarget::Glob(g) && g@ == glob_pattern_spec(e, project_dir@)
            } else {
                r matches ExclusionTarget::Path(p) && p@ == host_path_spec(e, project_dir@, env_view(env@), match home {
                    Some(h) => Some(h@),
                    None => None,
                })
            }
        }),
{
    let stripped = strip_trailing_slash(entry);
    let e = expand_env_vars(stripped.as_str(), env);
    if has_glob_chars(e.as_str()) {
        ExclusionTarget::Glob(glob_pattern(e.as_str(), project_dir))
    } else {
        ExclusionTarget::Path(resolve_host_path(e.as_str(), project_dir, env, home))
    }
}

/// What the file system answered for one exclusion entry.
pub enum Probe {
    /// The single path does not exist.
    Missing,
    /// The paths found, each with what it is.
    Found(Vec<(String, PathKind)>),
    /// The glob pattern could not be used.
    Failed(String),
}

pub enum ProbeView {
    Missing,
    Found(Seq<(Seq<char>, PathKind)>),
    Failed(Seq<char>),
}

impl Probe {
    pub open spec fn view_probe(&self) -> ProbeView {
        match self {
            Probe::Missing => ProbeView::Missing,
            Probe::Found(v) => ProbeView::Found(v@.map_values(|x: (String, PathKind)| (x.0@, x.1))),
            Probe::Failed(e) => ProbeView::Failed(e@),
        }
    }
}

pub open spec fn probe_views(ps: Seq<Probe>) -> Seq<ProbeView> {
    ps.map_values(|p: Probe| p.view_probe())
}

pub open spec fn mount_views(ms: Seq<ExclusionMount>) -> Seq<MountView> {
    ms.map_values(|m: ExclusionMount| m.view_mount())
}

/// Found paths added to the mounts: a path already seen is skipped; a file or directory
/// becomes a mount; anything else is only remembered.
pub open spec fn add_found(
    seen: Seq<Seq<char>>,
    ms: Seq<MountView>,
    found: Seq<(Seq<char>, PathKind)>,
) -> (Seq<Seq<char>>, Seq<MountView>)
    decreases found.len(),
{
    if found.len() == 0 {
        (seen, ms)
    } else {
        let r = add_found(seen, ms, found.drop_last());
        let (p, k) = found.last();
        if r.0.contains(p) {
            r
        } else {
            (r.0.push(p), match k {
                PathKind::File => r.1.push(MountView::File(p)),
                PathKind::Directory => r.1.push(MountView::Directory(p)),
                PathKind::Other => r.1,
            })
        }
    }
}

/// All the probes folded into mounts, stopping at the first failure.
pub open spec fn exclusions_spec(ps: Seq<ProbeView>) -> Result<(Seq<Seq<char>>, Seq<MountView>), Seq<char>>
    decreases ps.len(),
{
    if ps.len() == 0 {
        Ok((Seq::empty(), Seq::empty()))
    } else {
        match exclusions_spec(ps.drop_last()) {
            Err(e) => Err(e),
            Ok(r) => match ps.last() {
                ProbeView::Failed(e) => Err(e),
                ProbeView::Missing => Ok(r),
                ProbeView::Found(f) => Ok(add_found(r.0, r.1, f)),
            },
        }
    }
}

proof fn lemma_exclusions_err_sticky(ps: Seq<ProbeView>, k: int)
    requires
        0 <= k <= ps.len(),
        exclusions_spec(ps.take(k)) is Err,
    ensures
        exclusions_spec(ps) == exclusions_spec(ps.take(k)),
    decreases ps.len() - k,
{
    if k < ps.len() {
        assert(ps.take(k + 1).drop_last() =~= ps.take(k));
        lemma_exclusions_err_sticky(ps, k + 1);
    } else {
        assert(ps.take(k) =~= ps);
    }
}

fn seen_contains(seen: &Vec<String>, p: &str) -> (r: bool)
    ensures
        r == crate::text::views(seen@).contains(p@),
{
    let mut i: usize = 0;
    while i < seen.len()
        invariant
            i <= seen.len(),
            forall|j: int| 0 <= j < i ==> seen@[j]@ != p@,
        decreases seen.len() - i,
    {
        if str_eq(seen[i].as_str(), p) {
            proof {
                assert(crate::text::views(seen@)[i as int] == p@);
            }
            return true;
        }
        i = i + 1;
    }
    proof {
        if crate::text::views(seen@).contains(p@) {
            let k = choose|k: int| 0 <= k < seen@.len() && crate::text::views(seen@)[k] == p@;
            assert(seen@[k]@ == p@);
        }
    }
    false
}

/// Turns what the file system said about each exclusion entry into volume mounts, in
/// order, each path once. The first probe that failed is the error.
pub fn resolve_exclusions(probes: &[Probe]) -> (r: Result<Vec<ExclusionMount>, String>)
    ensures
        match exclusions_spec(probe_views(probes@)) {
            Ok(x) => r matches Ok(ms) && mount_views(ms@) == x.1,
            Err(e) => r matches Err(m) && m@ == e,
        },
{
    let mut seen: Vec<String> = Vec::new();
    let mut mounts: Vec<ExclusionMount> = Vec::new();
    let ghost pv = probe_views(probes@);
    let mut i: usize = 0;
    proof {
        assert(crate::text::views(seen@) =~= Seq::<Seq<char>>::empty());
        assert(mount_views(mounts@) =~= Seq::<MountView>::empty());
        assert(pv.take(0) =~= Seq::<ProbeView>::empty());
    }
    while i < probes.len()
        invariant
            i <= probes.len(),
            pv == probe_views(probes@),
            exclusions_spec(pv.take(i as int)) == Ok::<(Seq<Seq<char>>, Seq<MountView>), Seq<char>>(
                (crate::text::views(seen@), mount_views(mounts@)),
            ),
        decreases probes.len() - i,
    {
        proof {
            assert(pv.take(i + 1).drop_last() =~= pv.take(i as int));
            assert(pv.take(i + 1).last() == probes@[i as int].view_probe());
        }
        match &probes[i] {
            Probe::Failed(e) => {
                proof {
                    lemma_exclusions_err_sticky(pv, i + 1);
                }
                return Err(e.clone());
            },
            Probe::Missing => {},
            Probe::Found(found) => {
                let ghost fv = found@.map_values(|x: (String, PathKind)| (x.0@, x.1));
                let ghost seen0 = crate::text::views(seen@);
                let ghost ms0 = mount_views(mounts@);
                let mut j: usize = 0;
                proof {
                    assert(fv.take(0) =~= Seq::<(Seq<char>, PathKind)>::empty());
                }
                while j < found.len()
                    invariant
                        j <= found.len(),
                        fv == found@.map_values(|x: (String, PathKind)| (x.0@, x.1)),
                        add_found(seen0, ms0, fv.take(j as int)) == (
                            crate::text::views(seen@),
                            mount_views(mounts@),
                        ),
                    decreases found.len() - j,
                {
                    proof {
                        assert(fv.take(j + 1).drop_last() =~= fv.take(j as int));
                        assert(fv.take(j + 1).last() == (found@[j as int].0@, found@[j as int].1));
                    }
                    let p = &found[j].0;
                    if !seen_contains(&seen, p.as_str()) {
                        let c = p.clone();
                        proof {
                            assert(crate::text::views(seen@.push(c)) =~= crate::text::views(seen@).push(p@));
                        }
                        seen.push(c);
                        match found[j].1 {
                            PathKind::File => {
                                let m = ExclusionMount::File(p.clone());
                                proof {
                                    assert(mount_views(mounts@.push(m)) =~= mount_views(mounts@).push(MountView::File(p@)));
                                }
                                mounts.push(m);
                            },
                            PathKind::Directory => {
                                let m = ExclusionMount::Directory(p.clone());
                                proof {
                                    assert(mount_views(mounts@.push(m)) =~= mount_views(mounts@).push(MountView::Directory(p@)));
                                }
                                mounts.push(m);
                            },
                            PathKind::Other => {},
                        }
                    }
                    j = j + 1;
                }
                proof {
                    assert(fv.take(j as int) =~= fv);
                }
            },
        }
        i = i + 1;
    }
    proof {
        assert(pv.take(i as int) =~= pv);
    }
    Ok(mounts)
}

/// A resolved file inclusion: host path and container path.
#[derive(Clone, Debug)]
pub struct InclusionMount {
    pub host_path: String,
    pub container_path: String,
}

impl InclusionMount {
    /// The compose volume entry `host:container`.
    pub fn to_volume_mount(&self) -> (r: String)
        ensures
            r@ == self.host_path@ + seq![':'] + self.container_path@,
    {
        let mut r = self.host_path.clone();
        push_char(&mut r, ':');
        r.append(self.container_path.as_str());
        r
    }
}

/// One inclusion entry resolved on both sides.
pub fn inclusion_mount(
    host_raw: &str,
    container_raw: &str,
    project_dir: &str,
    sandbox_home: &str,
    env: &[(String, String)],
    home: Option<&str>,
) -> (r: InclusionMount)
    ensures
        r.host_path@ == host_path_spec(strip_slash_spec(host_raw@), project_dir@, env_view(env@), match home {
            Some(h) => Some(h@),
            None => None,
        }),
        r.container_path@ == container_path_spec(strip_slash_spec(container_raw@), sandbox_home@, project_dir@, env_view(env@)),
{
    let h = strip_trailing_slash(host_raw);
    let c = strip_trailing_slash(container_raw);
    InclusionMount {
        host_path: resolve_host_path(h.as_str(), project_dir, env, home),
        container_path: resolve_container_path(c.as_str(), sandbox_home, project_dir, env),
    }
}

/// The resolved (host, container) pair of each entry whose host path exists, in order.
pub open spec fn inclusions_spec(
    entries: Seq<(Seq<char>, Seq<char>)>,
    present: Seq<bool>,
    project_dir: Seq<char>,
    sandbox_home: Seq<char>,
    env: Seq<(Seq<char>, Seq<char>)>,
    home: Option<Seq<char>>,
) -> Seq<(Seq<char>, Seq<char>)>
    decreases entries.len(),
{
    if entries.len() == 0 || present.len() != entries.len() {
        Seq::empty()
    } else {
        let r = inclusions_spec(entries.drop_last(), present.drop_last(), project_dir, sandbox_home, env, home);
        let e = entries.last();
        if present.last() {
            r.push((
                host_path_spec(strip_slash_spec(e.0), project_dir, env, home),
                container_path_spec(strip_slash_spec(e.1), sandbox_home, project_dir, env),
            ))
        } else {
            r
        }
    }
}

pub open spec fn pair_views(v: Seq<(String, String)>) -> Seq<(Seq<char>, Seq<char>)> {
    v.map_values(|p: (String, String)| (p.0@, p.1@))
}

pub open spec fn inclusion_views(v: Seq<InclusionMount>) -> Seq<(Seq<char>, Seq<char>)> {
    v.map_values(|m: InclusionMount| (m.host_path@, m.container_path@))
}

/// The inclusion entries whose host path exists (`host_exists[i]` for entry `i`), resolved
/// into mounts in order.
pub fn resolve_inclusions(
    entries: &[(String, String)],
    project_dir: &str,
    sandbox_home: &str,
    env: &[(String, String)],
    home: Option<&str>,
    host_exists: &[bool],
) -> (r: Vec<InclusionMount>)
    requires
        host_exists.len() == entries.len(),
    ensures
        inclusion_views(r@) == inclusions_spec(pair_views(entries@), host_exists@, project_dir@, sandbox_home@, env_view(env@), match home {
            Some(h) => Some(h@),
            None => None,
        }),
{
    let ghost hv = match home {
        Some(h) => Some(h@),
        None => None,
    };
    let ghost ev = pair_views(entries@);
    let mut out: Vec<InclusionMount> = Vec::new();
    let mut i: usize = 0;
    proof {
        assert(inclusion_views(out@) =~= Seq::<(Seq<char>, Seq<char>)>::empty());
    }
    while i < entries.len()
        invariant
            i <= entries.len(),
            host_exists.len() == entries.len(),
            ev == pair_views(entries@),
            hv == match home {
                Some(h) => Some(h@),
                None => None,
            },
            inclusion_views(out@) == inclusions_spec(ev.take(i as int), host_exists@.take(i as int), project_dir@, sandbox_home@, env_view(env@), hv),
        decreases entries.len() - i,
    {
        proof {
            assert(ev.take(i + 1).drop_last() =~= ev.take(i as int));
            assert(host_exists@.take(i + 1).drop_last() =~= host_exists@.take(i as int));
            assert(ev.take(i + 1).last() == (entries@[i as int].0@, entries@[i as int].1@));
            assert(host_exists@.take(i + 1).last() == host_exists@[i as int]);
        }
        if host_exists[i] {
            let m = inclusion_mount(entries[i].0.as_str(), entries[i].1.as_str(), project_dir, sandbox_home, env, home);
            proof {
                assert(inclusion_views(out@.push(m)) =~= inclusion_views(out@).push((m.host_path@, m.container_path@)));
            }
            out.push(m);
        }
        i = i + 1;
    }
    proof {
        assert(ev.take(i as int) =~= ev);
        assert(host_exists@.take(i as int) =~= host_exists@);
    }
    out
}


} // verus!
