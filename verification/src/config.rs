//! The settings model, named profiles and the local state that says which one is active.
use vstd::prelude::*;
use crate::text::{chars_of, push_char, str_eq, concat};
use crate::title::{trim_end, trim_end_str};
use crate::path::join;
use vstd::multiset::Multiset;
use crate::json::{Json, JsonV, insert_key};
use crate::keys::{key_lt, compare_keys, lemma_key_lt_transitive, lemma_key_lt_total, lemma_key_lt_irreflexive, lemma_key_lt_asymmetric};
use crate::mcp::{with_member, empty_obj, str_member};

verus! {

/// The effective settings of a sandbox.
#[derive(Clone, Debug)]
pub struct Settings {
    pub schema_ref: Option<String>,
    /// Human-readable label, shown by `config list`.
    pub description: Option<String>,
    pub files: Option<FileSettings>,
    pub dependencies: Option<Vec<String>>,
    pub container: Option<ContainerSettings>,
    pub hooks: Option<HookSettings>,
    pub workspace: Option<WorkspaceSettings>,
    /// Variables set in the container, in the order the settings give them.
    pub environment: Option<Vec<(String, String)>>,
    pub network: Option<NetworkSettings>,
    pub docker: Option<DockerSettings>,
    pub memory: Option<MemorySettings>,
    pub gc: Option<GcSettings>,
}

impl Default for Settings {
    fn default() -> (r: Settings)
        ensures
            r.schema_ref is None,
            r.description is None,
            r.files is None,
            r.dependencies is None,
            r.container is None,
            r.hooks is None,
            r.workspace is None,
            r.environment is None,
            r.network is None,
            r.docker is None,
            r.memory is None,
            r.gc is None,
    {
        Settings {
            schema_ref: None,
            description: None,
            files: None,
            dependencies: None,
            container: None,
            hooks: None,
            workspace: None,
            environment: None,
            network: None,
            docker: None,
            memory: None,
            gc: None,
        }
    }
}

impl Settings {
    /// Whether `start` sweeps abandoned sandboxes first: on unless `gc.onStart` is false.
    pub fn gc_on_start(&self) -> (r: bool)
        ensures
            r == match self.gc {
                Some(g) => match g.on_start {
                    Some(b) => b,
                    None => true,
                },
                None => true,
            },
    {
        match &self.gc {
            Some(g) => match g.on_start {
                Some(b) => b,
                None => true,
            },
            None => true,
        }
    }
}

/// When the collector runs on its own.
#[derive(Clone, Debug)]
pub struct GcSettings {
    /// Sweep before starting a sandbox. Defaults to true.
    pub on_start: Option<bool>,
}

impl Default for GcSettings {
    fn default() -> (r: GcSettings)
        ensures
            r.on_start is None,
    {
        GcSettings { on_start: None }
    }
}

/// Memory configuration for this sandbox.
#[derive(Clone, Debug)]
pub struct MemorySettings {
    pub scope: Option<MemoryScopeSettings>,
}

impl Default for MemorySettings {
    fn default() -> (r: MemorySettings)
        ensures
            r.scope is None,
    {
        MemorySettings { scope: None }
    }
}

/// Which slice of memory this sandbox writes to and reads from.
#[derive(Clone, Debug)]
pub struct MemoryScopeSettings {
    /// Name notes are filed under. Defaults to the project directory's name.
    pub project: Option<String>,
    /// Whether recall reads the whole space or stays inside this project.
    pub cross_project: Option<bool>,
}

impl Default for MemoryScopeSettings {
    fn default() -> (r: MemoryScopeSettings)
        ensures
            r.project is None,
            r.cross_project is None,
    {
        MemoryScopeSettings { project: None, cross_project: None }
    }
}

impl MemorySettings {
    /// `scope.project`, when set.
    pub fn project(&self) -> (r: Option<&str>)
        ensures
            match self.scope {
                Some(s) => match s.project {
                    Some(p) => r matches Some(x) && x@ == p@,
                    None => r is None,
                },
                None => r is None,
            },
    {
        match &self.scope {
            Some(s) => match &s.project {
                Some(p) => Some(p.as_str()),
                None => None,
            },
            None => None,
        }
    }

    /// `scope.crossProject`, when set.
    pub fn cross_project(&self) -> (r: Option<bool>)
        ensures
            r == match self.scope {
                Some(s) => s.cross_project,
                None => None,
            },
    {
        match &self.scope {
            Some(s) => s.cross_project,
            None => None,
        }
    }
}

#[derive(Clone, Debug)]
pub struct FileSettings {
    pub exclude: Option<Vec<String>>,
    /// Host path to container path, in the order the settings give them.
    pub inclusions: Option<Vec<(String, String)>>,
}

impl Default for FileSettings {
    fn default() -> (r: FileSettings)
        ensures
            r.exclude is None,
            r.inclusions is None,
    {
        FileSettings { exclude: None, inclusions: None }
    }
}

#[derive(Clone, Debug)]
pub struct ContainerSettings {
    pub memory_limit: Option<String>,
    pub memory_swap_limit: Option<String>,
    pub base_image: Option<String>,
}

impl Default for ContainerSettings {
    fn default() -> (r: ContainerSettings)
        ensures
            r.memory_limit is None,
            r.memory_swap_limit is None,
            r.base_image is None,
    {
        ContainerSettings { memory_limit: None, memory_swap_limit: None, base_image: None }
    }
}

#[derive(Clone, Debug)]
pub struct HookSettings {
    pub setup: Option<SetupHook>,
    pub prestart: Option<Vec<ScriptHook>>,
    pub setup_host: Option<Vec<ScriptHook>>,
    pub cleanup_host: Option<Vec<ScriptHook>>,
}

impl Default for HookSettings {
    fn default() -> (r: HookSettings)
        ensures
            r.setup is None,
            r.prestart is None,
            r.setup_host is None,
            r.cleanup_host is None,
    {
        HookSettings { setup: None, prestart: None, setup_host: None, cleanup_host: None }
    }
}

#[derive(Clone, Debug)]
pub struct SetupHook {
    pub script: Option<String>,
}

impl Default for SetupHook {
    fn default() -> (r: SetupHook)
        ensures
            r.script is None,
    {
        SetupHook { script: None }
    }
}

#[derive(Clone, Debug)]
pub struct ScriptHook {
    pub script: String,
}

#[derive(Clone, Debug)]
pub struct WorkspaceSettings {
    pub dir: String,
    pub readwrite: bool,
}

#[derive(Clone, Debug)]
pub struct NetworkSettings {
    pub mode: Option<String>,
    /// Service host name to target, in the order the settings give them.
    pub services: Option<Vec<(String, String)>>,
}

impl Default for NetworkSettings {
    fn default() -> (r: NetworkSettings)
        ensures
            r.mode is None,
            r.services is None,
    {
        NetworkSettings { mode: None, services: None }
    }
}

#[derive(Clone, Debug)]
pub struct DockerSettings {
    pub passthrough: Option<bool>,
}

impl Default for DockerSettings {
    fn default() -> (r: DockerSettings)
        ensures
            r.passthrough is None,
    {
        DockerSettings { passthrough: None }
    }
}

/// Where an active profile was recorded.
#[derive(Clone, Copy, Debug, PartialEq, Eq, Structural)]
pub enum Scope {
    Project,
    Global,
}

impl Scope {
    /// `project` or `global`.
    pub fn label(&self) -> (r: String)
        ensures
            r@ == match self {
                Scope::Project => seq!['p', 'r', 'o', 'j', 'e', 'c', 't'],
                Scope::Global => seq!['g', 'l', 'o', 'b', 'a', 'l'],
            },
    {
        proof {
            reveal_strlit("project");
            reveal_strlit("global");
        }
        match self {
            Scope::Project => "project".to_owned(),
            Scope::Global => "global".to_owned(),
        }
    }
}

/// Which profile to apply, as requested on the command line.
#[derive(Clone, Debug, PartialEq, Eq)]
pub enum ProfileChoice {
    /// Whatever the state files say (default).
    Active,
    /// Explicit `--profile <name>`.
    Named(String),
    /// `--no-profile`: ignore the active profile for this run.
    Disabled,
}

impl ProfileChoice {
    /// `--no-profile` wins over `--profile`; neither means the active profile.
    pub fn from_flags(named: Option<&str>, disabled: bool) -> (r: ProfileChoice)
        ensures
            disabled ==> r is Disabled,
            !disabled && named is None ==> r is Active,
            !disabled ==> (named matches Some(n) ==> (r matches ProfileChoice::Named(m) && m@ == n@)),
    {
        if disabled {
            ProfileChoice::Disabled
        } else {
            match named {
                Some(name) => ProfileChoice::Named(name.to_owned()),
                None => ProfileChoice::Active,
            }
        }
    }
}

/// Where the applied profile came from.
#[derive(Clone, Copy, Debug, PartialEq, Eq, Structural)]
pub enum ProfileSource {
    Flag,
    State(Scope),
}

impl ProfileSource {
    /// `--profile`, or the scope of the state file.
    pub fn label(&self) -> (r: String)
        ensures
            r@ == match self {
                ProfileSource::Flag => seq!['-', '-', 'p', 'r', 'o', 'f', 'i', 'l', 'e'],
                ProfileSource::State(Scope::Project) => seq!['p', 'r', 'o', 'j', 'e', 'c', 't'],
                ProfileSource::State(Scope::Global) => seq!['g', 'l', 'o', 'b', 'a', 'l'],
            },
    {
        proof {
            reveal_strlit("--profile");
        }
        match self {
            ProfileSource::Flag => "--profile".to_owned(),
            ProfileSource::State(scope) => scope.label(),
        }
    }
}

/// Which profile applies: none when disabled, the named one (from the flag), else the
/// active one recorded in the state files.
pub fn resolve_profile(choice: &ProfileChoice, active: Option<(String, Scope)>) -> (r: Option<(String, ProfileSource)>)
    ensures
        match choice {
            ProfileChoice::Disabled => r is None,
            ProfileChoice::Named(n) => r matches Some(x) && x.0@ == n@ && x.1 == ProfileSource::Flag,
            ProfileChoice::Active => match active {
                Some(a) => r matches Some(x) && x.0@ == a.0@ && x.1 == ProfileSource::State(a.1),
                None => r is None,
            },
        },
{
    match choice {
        ProfileChoice::Disabled => None,
        ProfileChoice::Named(name) => Some((name.clone(), ProfileSource::Flag)),
        ProfileChoice::Active => match active {
            Some((name, scope)) => Some((name, ProfileSource::State(scope))),
            None => None,
        },
    }
}

/// A character allowed in a profile name: ASCII letter or digit, `-` or `_`.
pub open spec fn is_name_char(c: char) -> bool {
    ('a' <= c && c <= 'z') || ('A' <= c && c <= 'Z') || ('0' <= c && c <= '9') || c == '-' || c
        == '_'
}

/// A usable profile name: not empty, and made of name characters only.
pub open spec fn valid_profile_name(name: Seq<char>) -> bool {
    name.len() > 0 && forall|i: int| 0 <= i < name.len() ==> is_name_char(#[trigger] name[i])
}

/// Profile names become file names, so they are kept boring: letters, digits, `-` and
/// `_`, at least one of them.
pub fn validate_name(name: &str) -> (r: Result<(), String>)
    ensures
        r is Ok <==> valid_profile_name(name@),
        name@.len() == 0 ==> (r matches Err(m) && m@ == "profile name cannot be empty"@),
        name@.len() > 0 && !valid_profile_name(name@) ==> (r matches Err(m) && m@
            == "invalid profile name '"@ + name@ + "': use letters, digits, '-' and '_' only"@),
{
    let cs = chars_of(name);
    if cs.len() == 0 {
        return Err("profile name cannot be empty".to_owned());
    }
    let mut i: usize = 0;
    while i < cs.len()
        invariant
            i <= cs.len(),
            cs@ == name@,
            forall|j: int| 0 <= j < i ==> is_name_char(#[trigger] name@[j]),
        decreases cs.len() - i,
    {
        let c = cs[i];
        let ok = ('a' <= c && c <= 'z') || ('A' <= c && c <= 'Z') || ('0' <= c && c <= '9') || c
            == '-' || c == '_';
        if !ok {
            let m = concat("invalid profile name '", name);
            let m = concat(m.as_str(), "': use letters, digits, '-' and '_' only");
            return Err(m);
        }
        i = i + 1;
    }
    Ok(())
}

/// The file of a named profile: `<profiles_dir>/<name>.json`, once the name is valid.
pub fn profile_path(name: &str, profiles_dir: &str) -> (r: Result<String, String>)
    ensures
        r is Ok <==> valid_profile_name(name@),
        r matches Ok(p) ==> p@ == crate::path::join_spec(profiles_dir@, name@ + ".json"@),
{
    match validate_name(name) {
        Err(e) => Err(e),
        Ok(()) => {
            let file = concat(name, ".json");
            Ok(join(profiles_dir, file.as_str()))
        },
    }
}

/// Mutable local state: which profile is active.
#[derive(Clone, Debug)]
pub struct State {
    pub active_profile: Option<String>,
}

impl Default for State {
    fn default() -> (r: State)
        ensures
            r.active_profile is None,
    {
        State { active_profile: None }
    }
}

/// `<project_dir>/.sandseal/state.json`.
pub fn project_state_path(project_dir: &str) -> (r: String)
    ensures
        r@ == crate::path::join_spec(project_dir@, ".sandseal/state.json"@),
{
    join(project_dir, ".sandseal/state.json")
}

/// The state file of a scope: the project's, or the one under the home directory.
pub fn state_path(project_dir: &str, scope: Scope, home: Option<&str>) -> (r: Result<String, String>)
    ensures
        scope == Scope::Project ==> (r matches Ok(p) && p@ == crate::path::join_spec(project_dir@, ".sandseal/state.json"@)),
        scope == Scope::Global ==> match home {
            Some(h) => r matches Ok(p) && p@ == crate::path::join_spec(h@, ".sandseal/state.json"@),
            None => r matches Err(m) && m@ == "cannot determine home directory"@,
        },
{
    match scope {
        Scope::Project => Ok(project_state_path(project_dir)),
        Scope::Global => match home {
            Some(h) => Ok(join(h, ".sandseal/state.json")),
            None => Err("cannot determine home directory".to_owned()),
        },
    }
}

/// The active profile of two state files: the project's wins, the machine-wide one is the
/// fallback.
pub open spec fn active_spec(project: Option<Seq<char>>, global: Option<Seq<char>>) -> Option<(Seq<char>, Scope)> {
    match project {
        Some(n) => Some((n, Scope::Project)),
        None => match global {
            Some(n) => Some((n, Scope::Global)),
            None => None,
        },
    }
}

/// The name a state file records, if any.
pub open spec fn recorded(s: State) -> Option<Seq<char>> {
    match s.active_profile {
        Some(n) => Some(n@),
        None => None,
    }
}

/// The active profile: the project's state wins, the global state is the fallback.
pub fn active_profile(project: &State, global: &State) -> (r: Option<(String, Scope)>)
    ensures
        match r {
            Some(x) => active_spec(recorded(*project), recorded(*global)) == Some((x.0@, x.1)),
            None => active_spec(recorded(*project), recorded(*global)) is None,
        },
{
    match &project.active_profile {
        Some(name) => Some((name.clone(), Scope::Project)),
        None => match &global.active_profile {
            Some(name) => Some((name.clone(), Scope::Global)),
            None => None,
        },
    }
}

/// Records `name` as the active profile, or clears it.
pub fn set_active_profile(state: &mut State, name: Option<&str>)
    ensures
        recorded(*final(state)) == match name {
            Some(n) => Some(n@),
            None => None::<Seq<char>>,
        },
{
    state.active_profile = match name {
        Some(n) => Some(n.to_owned()),
        None => None,
    };
}

/// The profile a bare `config show` or `edit` means: the one named, else the active one.
pub fn require_active(name: Option<String>, active: Option<(String, Scope)>) -> (r: Result<String, String>)
    ensures
        match name {
            Some(n) => r matches Ok(x) && x@ == n@,
            None => match active {
                Some(a) => r matches Ok(x) && x@ == a.0@,
                None => r matches Err(m) && m@
                    == "no active profile \u{2014} pass a name or run `sandseal config set <name>`"@,
            },
        },
{
    match name {
        Some(n) => Ok(n),
        None => match active {
            Some((n, _)) => Ok(n),
            None => Err("no active profile \u{2014} pass a name or run `sandseal config set <name>`".to_owned()),
        },
    }
}


/// Where the settings schema is published.
pub const SCHEMA_URL: &'static str = "https://raw.githubusercontent.com/sandseal/sandseal/main/schema/settings.schema.json";

/// A new, empty profile: the schema and a description naming it.
pub fn new_profile_json(name: &str) -> (r: Json)
    ensures
        r@ == with_member(
            with_member(empty_obj(), "$schema"@, JsonV::Str(SCHEMA_URL@)),
            "description"@,
            JsonV::Str(name@ + " profile"@),
        ),
{
    let mut o = Json::object();
    o.insert("$schema", Json::string(SCHEMA_URL));
    o.insert("description", Json::string(concat(name, " profile").as_str()));
    o
}

/// A profile copied from another: its settings, with a description saying so.
pub fn copied_profile(value: Json, source: &str) -> (r: Json)
    ensures
        r@ == with_member(value@, "description"@, JsonV::Str("copied from "@ + source@)),
{
    let mut v = value;
    v.insert("description", Json::string(concat("copied from ", source).as_str()));
    v
}

/// A profile as `config list` shows it.
#[derive(Clone, Debug)]
pub struct ProfileInfo {
    pub name: String,
    pub description: Option<String>,
}

/// A listed profile: the description it carries, when the file parsed and has one.
pub fn profile_info(name: String, value: Option<&Json>) -> (r: ProfileInfo)
    ensures
        r.name@ == name@,
        match value {
            Some(v) => match str_member(v@, "description"@) {
                Some(d) => r.description matches Some(x) && x@ == d,
                None => r.description is None,
            },
            None => r.description is None,
        },
{
    let description = match value {
        Some(v) => match v.get("description") {
            Some(Json::Str(d)) => Some(d.clone()),
            _ => None,
        },
        None => None,
    };
    ProfileInfo { name, description }
}

/// The names of a list of profiles.
pub open spec fn profile_names(v: Seq<ProfileInfo>) -> Seq<Seq<char>> {
    v.map_values(|p: ProfileInfo| p.name@)
}

/// In name order: no profile's name sorts before an earlier one's.
pub open spec fn sorted_by_name(v: Seq<ProfileInfo>) -> bool {
    forall|i: int, j: int| 0 <= i < j < v.len() ==> !key_lt(#[trigger] v[j].name@, #[trigger] v[i].name@)
}

/// The profiles sorted by name.
pub fn sort_profiles(v: Vec<ProfileInfo>) -> (r: Vec<ProfileInfo>)
    ensures
        sorted_by_name(r@),
        r@.to_multiset() == v@.to_multiset(),
{
    broadcast use vstd::multiset::group_multiset_axioms;
    let mut rest = v;
    let mut out: Vec<ProfileInfo> = Vec::new();
    proof {
        assert(out@.to_multiset() =~= Multiset::<ProfileInfo>::empty()) by {
            out@.to_multiset_ensures();
        }
        assert(rest@.to_multiset().add(out@.to_multiset()) =~= v@.to_multiset());
    }
    while rest.len() > 0
        invariant
            sorted_by_name(out@),
            rest@.to_multiset().add(out@.to_multiset()) == v@.to_multiset(),
        decreases rest.len(),
    {
        let ghost r0 = rest@;
        let x = rest.remove(0);
        proof {
            assert(rest@ == r0.remove(0));
            vstd::seq_lib::to_multiset_remove(r0, 0);
            assert(rest@.to_multiset() == r0.to_multiset().remove(x));
            assert(r0[0] == x);
            r0.to_multiset_ensures();
            assert(r0.contains(x));
            assert(r0.to_multiset().count(x) > 0);
        }
        let mut pos: usize = 0;
        while pos < out.len() && compare_keys(x.name.as_str(), out[pos].name.as_str()) >= 0
            invariant
                pos <= out.len(),
                sorted_by_name(out@),
                forall|k: int| 0 <= k < pos ==> !key_lt(x.name@, #[trigger] out@[k].name@),
            decreases out.len() - pos,
        {
            pos = pos + 1;
        }
        let ghost o0 = out@;
        out.insert(pos, x);
        proof {
            assert(out@ == o0.insert(pos as int, x));
            assert forall|i: int, j: int| 0 <= i < j < out@.len() implies !key_lt(#[trigger] out@[j].name@, #[trigger] out@[i].name@) by {
                if j < pos {
                    assert(out@[i] == o0[i] && out@[j] == o0[j]);
                } else if j == pos {
                    assert(out@[i] == o0[i]);
                    lemma_key_lt_total(x.name@, o0[i].name@);
                    lemma_key_lt_asymmetric(x.name@, o0[i].name@);
                } else if i < pos {
                    assert(out@[i] == o0[i] && out@[j] == o0[j - 1]);
                } else if i == pos {
                    assert(out@[j] == o0[j - 1]);
                    assert(key_lt(x.name@, o0[pos as int].name@));
                    if j - 1 > pos {
                        lemma_key_lt_total(o0[pos as int].name@, o0[j - 1].name@);
                        if key_lt(o0[j - 1].name@, x.name@) {
                            if o0[pos as int].name@ == o0[j - 1].name@ {
                                lemma_key_lt_asymmetric(x.name@, o0[pos as int].name@);
                            } else {
                                lemma_key_lt_transitive(x.name@, o0[pos as int].name@, o0[j - 1].name@);
                                lemma_key_lt_asymmetric(x.name@, o0[j - 1].name@);
                            }
                        }
                    } else {
                        lemma_key_lt_asymmetric(x.name@, o0[pos as int].name@);
                    }
                } else {
                    assert(out@[i] == o0[i - 1] && out@[j] == o0[j - 1]);
                }
            }
            vstd::seq_lib::to_multiset_insert(o0, pos as int, x);
            assert(out@.to_multiset() == o0.to_multiset().insert(x));
            assert(r0.to_multiset().count(x) > 0);
            assert(rest@.to_multiset().add(out@.to_multiset()) =~= v@.to_multiset());
        }
    }
    proof {
        assert(rest@.to_multiset() =~= Multiset::<ProfileInfo>::empty()) by {
            rest@.to_multiset_ensures();
            assert(rest@ =~= Seq::<ProfileInfo>::empty());
        }
        assert(out@.to_multiset() =~= v@.to_multiset());
    }
    out
}

/// A name's length in bytes, as `str::len` gives it.
pub open spec fn byte_len(name: Seq<char>) -> nat {
    (vstd::utf8::encode_utf8(name).len() as usize) as nat
}

/// The longest profile name, counted in bytes.
pub open spec fn name_width(ps: Seq<ProfileInfo>) -> nat
    decreases ps.len(),
{
    if ps.len() == 0 {
        0
    } else {
        let w = name_width(ps.drop_last());
        let n = byte_len(ps.last().name@);
        if n > w {
            n
        } else {
            w
        }
    }
}

/// `n` spaces.
pub open spec fn spaces(n: nat) -> Seq<char> {
    Seq::new(n, |i: int| ' ')
}

/// A name padded with spaces to `width` characters.
pub open spec fn padded(name: Seq<char>, width: nat) -> Seq<char> {
    if name.len() < width {
        name + spaces((width - name.len()) as nat)
    } else {
        name
    }
}

/// One profile in the listing: `*` marks the active one, the description follows in an
/// aligned column, and trailing white space is cut.
pub open spec fn listing_line(p: ProfileInfo, active: Option<Seq<char>>, width: nat) -> Seq<char> {
    let marker = if active == Some(p.name@) {
        '*'
    } else {
        ' '
    };
    let head = seq![' ', ' ', marker, ' '];
    trim_end(
        match p.description {
            Some(d) => head + padded(p.name@, width) + seq![' ', ' '] + d@,
            None => head + p.name@,
        },
    )
}

/// The listing of the profiles, or the hint shown when there is none.
pub open spec fn listing_spec(ps: Seq<ProfileInfo>, active: Option<Seq<char>>) -> Seq<Seq<char>> {
    if ps.len() == 0 {
        seq!["    (none) \u{2014} create one with `sandseal config create <name>`"@]
    } else {
        Seq::new(ps.len(), |i: int| listing_line(ps[i], active, name_width(ps)))
    }
}

fn pad_to(name: &str, width: usize) -> (r: String)
    ensures
        r@ == padded(name@, width as nat),
{
    let n = chars_of(name).len();
    let mut out = name.to_owned();
    if n < width {
        let mut k: usize = n;
        while k < width
            invariant
                n <= k <= width,
                n == name@.len(),
                out@ == name@ + spaces((k - n) as nat),
            decreases width - k,
        {
            push_char(&mut out, ' ');
            proof {
                assert(spaces((k + 1 - n) as nat) =~= spaces((k - n) as nat).push(' '));
            }
            k = k + 1;
        }
    } else {
        proof {
            assert(out@ == name@);
        }
    }
    out
}

/// The lines `config list` prints for the profiles, the active one marked.
pub fn list_lines(profiles: &Vec<ProfileInfo>, active: Option<&str>) -> (r: Vec<String>)
    ensures
        crate::text::views(r@) == listing_spec(
            profiles@,
            match active {
                Some(a) => Some(a@),
                None => None,
            },
        ),
{
    let ghost act = match active {
        Some(a) => Some(a@),
        None => None::<Seq<char>>,
    };
    let mut out: Vec<String> = Vec::new();
    if profiles.len() == 0 {
        out.push("    (none) \u{2014} create one with `sandseal config create <name>`".to_owned());
        proof {
            assert(crate::text::views(out@) =~= listing_spec(profiles@, act));
        }
        return out;
    }
    let mut width: usize = 0;
    let mut i: usize = 0;
    proof {
        assert(profiles@.take(0) =~= Seq::<ProfileInfo>::empty());
    }
    while i < profiles.len()
        invariant
            i <= profiles.len(),
            width as nat == name_width(profiles@.take(i as int)),
        decreases profiles.len() - i,
    {
        let n = profiles[i].name.as_str().len();
        proof {
            assert(profiles@.take(i + 1).drop_last() =~= profiles@.take(i as int));
            assert(profiles@.take(i + 1).last() == profiles@[i as int]);
            assert(n as nat == byte_len(profiles@[i as int].name@));
        }
        if n > width {
            width = n;
        }
        i = i + 1;
    }
    proof {
        assert(profiles@.take(profiles@.len() as int) =~= profiles@);
    }
    let mut j: usize = 0;
    while j < profiles.len()
        invariant
            j <= profiles.len(),
            profiles@.len() > 0,
            width as nat == name_width(profiles@),
            act == (match active {
                Some(a) => Some(a@),
                None => None::<Seq<char>>,
            }),
            out@.len() == j,
            forall|k: int| 0 <= k < j ==> #[trigger] out@[k]@ == listing_line(profiles@[k], act, width as nat),
        decreases profiles.len() - j,
    {
        let p = &profiles[j];
        let is_active = match active {
            Some(a) => str_eq(a, p.name.as_str()),
            None => false,
        };
        let head = if is_active { "  * " } else { "    " };
        proof {
            reveal_strlit("  * ");
            reveal_strlit("    ");
        }
        let raw = match &p.description {
            Some(d) => {
                let l = concat(head, pad_to(p.name.as_str(), width).as_str());
                let l = concat(l.as_str(), "  ");
                proof {
                    reveal_strlit("  ");
                }
                concat(l.as_str(), d.as_str())
            },
            None => concat(head, p.name.as_str()),
        };
        proof {
            let marker = if act == Some(p.name@) { '*' } else { ' ' };
            assert(head@ =~= seq![' ', ' ', marker, ' ']);
            reveal_strlit("  ");
            assert(raw@ == (match p.description {
                Some(dd) => seq![' ', ' ', marker, ' '] + padded(p.name@, width as nat) + seq![' ', ' '] + dd@,
                None => seq![' ', ' ', marker, ' '] + p.name@,
            }));
        }
        let line = trim_end_str(raw.as_str());
        out.push(line);
        j = j + 1;
    }
    proof {
        assert(crate::text::views(out@) =~= listing_spec(profiles@, act));
    }
    out
}

/// The editor that `config edit` runs: `$VISUAL`, else `$EDITOR`, else `vi`.
pub fn choose_editor(visual: Option<String>, editor: Option<String>) -> (r: String)
    ensures
        r@ == (match visual {
            Some(v) => v@,
            None => match editor {
                Some(e) => e@,
                None => "vi"@,
            },
        }),
{
    match visual {
        Some(v) => v,
        None => match editor {
            Some(e) => e,
            None => "vi".to_owned(),
        },
    }
}

/// Law: what is recorded for the project is what is active, whatever the machine-wide
/// file says; once the project's record is cleared, the machine-wide one shows through.
pub proof fn law_project_record_wins(name: Seq<char>, global: Option<Seq<char>>)
    ensures
        active_spec(Some(name), global) == Some((name, Scope::Project)),
        active_spec(None, global) == match global {
            Some(g) => Some((g, Scope::Global)),
            None => None::<(Seq<char>, Scope)>,
        },
{
}

} // verus!
