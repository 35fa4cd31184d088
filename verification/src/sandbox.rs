//! The sandboxes on this machine: the record each one leaves, what the collector reports,
//! and what it reads back from Docker.
use vstd::prelude::*;
use crate::lines::{lines, lines_spec};
use crate::path::join;
use crate::text::{views, concat, push_string, usize_to_string, decimal, starts_with};
use crate::title::{trim, trim_spec};

verus! {

/// What a sweep did.
#[derive(Clone, Debug)]
pub struct SweepReport {
    /// Sandboxes whose CLI is gone, by instance name.
    pub reaped: Vec<String>,
    /// Containers left over from earlier sessions that had already stopped.
    pub removed_stale: usize,
}

impl Default for SweepReport {
    fn default() -> (r: SweepReport)
        ensures
            r.reaped@.len() == 0,
            r.removed_stale == 0,
    {
        SweepReport { reaped: Vec::new(), removed_stale: 0 }
    }
}

/// The one line `start` prints after a sweep.
pub open spec fn summary_spec(reaped: nat, removed: nat) -> Seq<char> {
    let a = decimal(reaped) + " abandoned sandbox(es)"@;
    let b = decimal(removed) + " stopped container(s)"@;
    "Cleaned up "@ + (if reaped > 0 && removed > 0 {
        a + " and "@ + b
    } else if reaped > 0 {
        a
    } else if removed > 0 {
        b
    } else {
        Seq::empty()
    }) + "."@
}

impl SweepReport {
    /// Nothing reaped and nothing removed.
    pub fn is_empty(&self) -> (r: bool)
        ensures
            r == (self.reaped@.len() == 0 && self.removed_stale == 0),
    {
        self.reaped.len() == 0 && self.removed_stale == 0
    }

    /// Names both kinds of leftover, leaving out what did not happen.
    pub fn summary(&self) -> (r: String)
        ensures
            r@ == summary_spec(self.reaped@.len(), self.removed_stale as nat),
    {
        let mut out = "Cleaned up ".to_owned();
        let reaped = self.reaped.len();
        if reaped > 0 {
            out.append(usize_to_string(reaped).as_str());
            out.append(" abandoned sandbox(es)");
        }
        if reaped > 0 && self.removed_stale > 0 {
            out.append(" and ");
        }
        if self.removed_stale > 0 {
            out.append(usize_to_string(self.removed_stale).as_str());
            out.append(" stopped container(s)");
        }
        out.append(".");
        proof {
            assert(out@ =~= summary_spec(self.reaped@.len(), self.removed_stale as nat));
        }
        out
    }
}

/// What a started sandbox leaves on record: enough to reap it when its CLI is gone.
#[derive(Clone, Debug)]
pub struct InstanceRecord {
    /// Also the compose project name.
    pub instance_name: String,
    pub project_dir: String,
    /// Holds the compose override and the mounted prestart scripts.
    pub tmp_dir: String,
    /// Present only when the session reached the backend.
    pub session_id: Option<String>,
    /// The backend this session was opened against.
    pub api_url: Option<String>,
    /// Unix seconds. For reporting only.
    pub started_at: u64,
}

/// The record's file: `<dir>/<instance>.json`.
pub fn record_path(dir: &str, instance_name: &str) -> (r: String)
    ensures
        r@ == crate::path::join_spec(dir@, instance_name@ + ".json"@),
{
    join(dir, concat(instance_name, ".json").as_str())
}

/// Where the record is written before it is published: `<dir>/.<instance>.claiming`.
pub fn staging_path(dir: &str, instance_name: &str) -> (r: String)
    ensures
        r@ == crate::path::join_spec(dir@, "."@ + instance_name@ + ".claiming"@),
{
    let name = concat(".", instance_name);
    join(dir, concat(name.as_str(), ".claiming").as_str())
}

/// Whether `path` lies at or under `base`, comparing path components (`Path::starts_with`).
pub uninterp spec fn path_under(path: Seq<char>, base: Seq<char>) -> bool;

/// `Path::starts_with`.
#[verifier::external_body]
fn path_starts_with(path: &str, base: &str) -> (r: bool)
    ensures
        r == path_under(path@, base@),
{
    std::path::Path::new(path).starts_with(base)
}

/// Whether the collector may delete a record's tmp dir: only one under the home's
/// `.sandseal/tmp`, which is where the CLI creates them; never without a home.
pub fn may_remove_tmp_dir(tmp_dir: &str, home: Option<&str>) -> (r: bool)
    ensures
        r == match home {
            Some(h) => path_under(tmp_dir@, crate::path::join_spec(h@, ".sandseal/tmp"@)),
            None => false,
        },
{
    match home {
        Some(h) => {
            let base = join(h, ".sandseal/tmp");
            path_starts_with(tmp_dir, base.as_str())
        },
        None => false,
    }
}

/// The trimmed non-empty lines of `ls`, in order.
pub open spec fn trimmed_non_empty(ls: Seq<Seq<char>>) -> Seq<Seq<char>>
    decreases ls.len(),
{
    if ls.len() == 0 {
        Seq::empty()
    } else {
        let r = trimmed_non_empty(ls.drop_last());
        let t = trim_spec(ls.last());
        if t.len() == 0 {
            r
        } else {
            r.push(t)
        }
    }
}

/// The container IDs Docker listed, one per line.
pub fn container_ids_from(output: &str) -> (r: Vec<String>)
    ensures
        views(r@) == trimmed_non_empty(lines_spec(output@)),
{
    let ls = lines(output);
    let ghost lv = views(ls@);
    let mut out: Vec<String> = Vec::new();
    let mut i: usize = 0;
    proof {
        assert(lv.take(0) =~= Seq::<Seq<char>>::empty());
        assert(views(out@) =~= Seq::<Seq<char>>::empty());
    }
    while i < ls.len()
        invariant
            i <= ls.len(),
            lv == views(ls@),
            views(out@) == trimmed_non_empty(lv.take(i as int)),
        decreases ls.len() - i,
    {
        proof {
            assert(lv.take(i + 1).drop_last() =~= lv.take(i as int));
            assert(lv.take(i + 1).last() == ls@[i as int]@);
        }
        let t = trim(ls[i].as_str());
        if !t.as_str().is_empty() {
            push_string(&mut out, t);
        }
        i = i + 1;
    }
    proof {
        assert(lv.take(i as int) =~= lv);
    }
    out
}

/// The tag of an image reference: what follows its last `:`, or nothing.
pub open spec fn tag_of(image: Seq<char>) -> Seq<char>
    decreases image.len(),
{
    if image.len() == 0 {
        Seq::empty()
    } else if image.last() == ':' {
        Seq::empty()
    } else if !image.contains(':') {
        Seq::empty()
    } else {
        tag_of(image.drop_last()).push(image.last())
    }
}

fn tag_exec(image: &str) -> (r: String)
    ensures
        r@ == tag_of(image@),
{
    let cs = crate::text::chars_of(image);
    let mut j = cs.len();
    while j > 0 && cs[j - 1] != ':'
        invariant
            j <= cs.len(),
            cs@ == image@,
            forall|k: int| j <= k < cs.len() ==> cs@[k] != ':',
        decreases j,
    {
        j = j - 1;
    }
    proof {
        lemma_tag_of(image@, j as int);
    }
    if j == 0 {
        String::new()
    } else {
        crate::text::string_of(&cs, j, cs.len())
    }
}

proof fn lemma_tag_of(s: Seq<char>, j: int)
    requires
        0 <= j <= s.len(),
        forall|k: int| j <= k < s.len() ==> s[k] != ':',
        j > 0 ==> s[j - 1] == ':',
    ensures
        tag_of(s) == (if j == 0 {
            Seq::<char>::empty()
        } else {
            s.subrange(j, s.len() as int)
        }),
    decreases s.len(),
{
    if s.len() > j {
        let t = s.drop_last();
        lemma_tag_of(t, j);
        if j == 0 {
            assert(!s.contains(':'));
        } else {
            assert(s.contains(':')) by {
                assert(s[j - 1] == ':');
            }
            assert(t.subrange(j, t.len() as int).push(s.last()) =~= s.subrange(j, s.len() as int));
        }
    } else if j > 0 {
        assert(s.subrange(j, s.len() as int) =~= Seq::<char>::empty());
    }
}

/// The overlay images of one project among a repository's images: those whose tag starts
/// with `<project>-` (the shared base image is tagged `base-<hash>`).
pub open spec fn overlays_of(images: Seq<Seq<char>>, project_basename: Seq<char>) -> Seq<Seq<char>>
    decreases images.len(),
{
    if images.len() == 0 {
        Seq::empty()
    } else {
        let r = overlays_of(images.drop_last(), project_basename);
        let prefix = project_basename + "-"@;
        let t = tag_of(images.last());
        if prefix.len() <= t.len() && t.take(prefix.len() as int) == prefix {
            r.push(images.last())
        } else {
            r
        }
    }
}

/// The images to remove for one project: its overlays, never the shared base.
pub fn project_overlays(images: &Vec<String>, project_basename: &str) -> (r: Vec<String>)
    ensures
        views(r@) == overlays_of(views(images@), project_basename@),
{
    let prefix = concat(project_basename, "-");
    let ghost iv = views(images@);
    let mut out: Vec<String> = Vec::new();
    let mut i: usize = 0;
    proof {
        assert(iv.take(0) =~= Seq::<Seq<char>>::empty());
        assert(views(out@) =~= Seq::<Seq<char>>::empty());
    }
    while i < images.len()
        invariant
            i <= images.len(),
            iv == views(images@),
            prefix@ == project_basename@ + "-"@,
            views(out@) == overlays_of(iv.take(i as int), project_basename@),
        decreases images.len() - i,
    {
        proof {
            assert(iv.take(i + 1).drop_last() =~= iv.take(i as int));
            assert(iv.take(i + 1).last() == images@[i as int]@);
        }
        let t = tag_exec(images[i].as_str());
        if starts_with(t.as_str(), prefix.as_str()) {
            push_string(&mut out, images[i].clone());
        }
        i = i + 1;
    }
    proof {
        assert(iv.take(i as int) =~= iv);
    }
    out
}

/// One thing the way out of a sandbox does, in the order the guard lists them.
pub enum CleanupStep {
    /// Run `compose down` with this command line.
    ComposeDown(Vec<String>),
    /// Run the host cleanup hooks (their scripts) in the project directory.
    CleanupHooks(Vec<String>, String),
    /// Remove the instance's tmp dir, when it exists.
    RemoveTmpDir(String),
    /// Close the backend session (its backend, its id).
    CloseSession(Option<String>, String),
    /// Drop the instance record, releasing its lock.
    ReleaseRecord,
}

/// A cleanup step as plain values.
pub enum StepView {
    ComposeDown(Seq<Seq<char>>),
    CleanupHooks(Seq<Seq<char>>, Seq<char>),
    RemoveTmpDir(Seq<char>),
    CloseSession(Option<Seq<char>>, Seq<char>),
    ReleaseRecord,
}

pub open spec fn opt_text(o: Option<String>) -> Option<Seq<char>> {
    match o {
        Some(s) => Some(s@),
        None => None,
    }
}

pub open spec fn step_view(s: CleanupStep) -> StepView {
    match s {
        CleanupStep::ComposeDown(c) => StepView::ComposeDown(views(c@)),
        CleanupStep::CleanupHooks(h, d) => StepView::CleanupHooks(views(h@), d@),
        CleanupStep::RemoveTmpDir(t) => StepView::RemoveTmpDir(t@),
        CleanupStep::CloseSession(a, i) => StepView::CloseSession(opt_text(a), i@),
        CleanupStep::ReleaseRecord => StepView::ReleaseRecord,
    }
}

pub open spec fn step_views(v: Seq<CleanupStep>) -> Seq<StepView> {
    v.map_values(|s: CleanupStep| step_view(s))
}

/// What the guard knows of a running sandbox.
pub struct GuardView {
    pub compose_cmd: Seq<Seq<char>>,
    pub cleanup_hooks: Seq<Seq<char>>,
    pub project_dir: Seq<char>,
    pub tmp_dir: Seq<char>,
    pub session: Option<(Option<Seq<char>>, Seq<char>)>,
    pub claimed: bool,
    pub done: bool,
}

/// The steps of a cleanup: compose down, the host cleanup hooks (when there are any), the
/// tmp dir, the session (when there is one), the record (when one is held); nothing at all
/// when the cleanup already ran.
pub open spec fn cleanup_steps(g: GuardView) -> Seq<StepView> {
    if g.done {
        Seq::empty()
    } else {
        seq![StepView::ComposeDown(g.compose_cmd)] + (if g.cleanup_hooks.len() > 0 {
            seq![StepView::CleanupHooks(g.cleanup_hooks, g.project_dir)]
        } else {
            Seq::empty()
        }) + seq![StepView::RemoveTmpDir(g.tmp_dir)] + (match g.session {
            Some(s) => seq![StepView::CloseSession(s.0, s.1)],
            None => Seq::empty(),
        }) + (if g.claimed {
            seq![StepView::ReleaseRecord]
        } else {
            Seq::empty()
        })
    }
}

/// The guard after a cleanup: done, with no session left to close and no record held.
pub open spec fn after_cleanup(g: GuardView) -> GuardView {
    if g.done {
        g
    } else {
        GuardView { session: None, claimed: false, done: true, ..g }
    }
}

/// What a sandbox needs undone on the way out, whichever way it ends.
pub struct CleanupGuard {
    compose_cmd: Vec<String>,
    cleanup_hooks: Vec<String>,
    project_dir: String,
    tmp_dir: String,
    session: Option<(Option<String>, String)>,
    claimed: bool,
    done: bool,
}

impl CleanupGuard {
    pub closed spec fn view_guard(&self) -> GuardView {
        GuardView {
            compose_cmd: views(self.compose_cmd@),
            cleanup_hooks: views(self.cleanup_hooks@),
            project_dir: self.project_dir@,
            tmp_dir: self.tmp_dir@,
            session: match self.session {
                Some(s) => Some((opt_text(s.0), s.1@)),
                None => None,
            },
            claimed: self.claimed,
            done: self.done,
        }
    }

    /// A guard for a sandbox that has started: nothing closed, nothing held yet.
    pub fn new(compose_cmd: Vec<String>, cleanup_hooks: Vec<String>, project_dir: String, tmp_dir: String) -> (r: CleanupGuard)
        ensures
            r.view_guard() == (GuardView {
                compose_cmd: views(compose_cmd@),
                cleanup_hooks: views(cleanup_hooks@),
                project_dir: project_dir@,
                tmp_dir: tmp_dir@,
                session: None,
                claimed: false,
                done: false,
            }),
    {
        CleanupGuard { compose_cmd, cleanup_hooks, project_dir, tmp_dir, session: None, claimed: false, done: false }
    }

    /// Close this session on the way out.
    pub fn closing_session(&mut self, api_url: Option<String>, session_id: String)
        ensures
            final(self).view_guard() == (GuardView {
                session: Some((opt_text(api_url), session_id@)),
                ..old(self).view_guard()
            }),
    {
        self.session = Some((api_url, session_id));
    }

    /// The instance record is held: release it on the way out.
    pub fn holding(&mut self)
        ensures
            final(self).view_guard() == (GuardView { claimed: true, ..old(self).view_guard() }),
    {
        self.claimed = true;
    }

    /// Whether the cleanup already ran.
    pub fn is_done(&self) -> (r: bool)
        ensures
            r == self.view_guard().done,
    {
        self.done
    }

    /// The steps to run now, in order; the guard then counts as cleaned up.
    pub fn cleanup(&mut self) -> (r: Vec<CleanupStep>)
        ensures
            step_views(r@) == cleanup_steps(old(self).view_guard()),
            final(self).view_guard() == after_cleanup(old(self).view_guard()),
    {
        let ghost g = self.view_guard();
        let mut steps: Vec<CleanupStep> = Vec::new();
        if self.done {
            proof {
                assert(step_views(steps@) =~= cleanup_steps(g));
            }
            return steps;
        }
        self.done = true;
        steps.push(CleanupStep::ComposeDown(self.compose_cmd.clone()));
        if self.cleanup_hooks.len() > 0 {
            steps.push(CleanupStep::CleanupHooks(self.cleanup_hooks.clone(), self.project_dir.clone()));
        }
        steps.push(CleanupStep::RemoveTmpDir(self.tmp_dir.clone()));
        let mut taken: Option<(Option<String>, String)> = None;
        std::mem::swap(&mut taken, &mut self.session);
        match taken {
            Some((api_url, session_id)) => steps.push(CleanupStep::CloseSession(api_url, session_id)),
            None => {},
        }
        if self.claimed {
            self.claimed = false;
            steps.push(CleanupStep::ReleaseRecord);
        }
        proof {
            assert(step_views(steps@) =~= cleanup_steps(g));
            assert(self.view_guard() == after_cleanup(g));
        }
        steps
    }
}

/// Law: cleanup runs once. Whatever the guard held, a second cleanup has nothing to do,
/// and leaves the guard as it was.
pub proof fn law_cleanup_runs_once(g: GuardView)
    ensures
        cleanup_steps(after_cleanup(g)) == Seq::<StepView>::empty(),
        after_cleanup(after_cleanup(g)) == after_cleanup(g),
{
}

/// `compose -p <instance> down --remove-orphans`: by project name alone, since the override
/// file may already be gone.
pub fn compose_down_args(instance_name: &str) -> (r: Vec<String>)
    ensures
        views(r@) == seq!["compose"@, "-p"@, instance_name@, "down"@, "--remove-orphans"@],
{
    let mut v: Vec<String> = Vec::new();
    v.push("compose".to_owned());
    v.push("-p".to_owned());
    v.push(instance_name.to_owned());
    v.push("down".to_owned());
    v.push("--remove-orphans".to_owned());
    proof {
        assert(views(v@) =~= seq!["compose"@, "-p"@, instance_name@, "down"@, "--remove-orphans"@]);
    }
    v
}

/// The `docker ps` filter for an instance's containers, by the label compose gave them.
pub fn instance_filter(instance_name: &str) -> (r: Vec<String>)
    ensures
        views(r@) == seq!["--filter"@, "label=sandseal.instance_name="@ + instance_name@],
{
    let mut v: Vec<String> = Vec::new();
    v.push("--filter".to_owned());
    v.push(concat("label=sandseal.instance_name=", instance_name));
    proof {
        assert(views(v@) =~= seq!["--filter"@, "label=sandseal.instance_name="@ + instance_name@]);
    }
    v
}

/// The filters for stopped sandbox containers: labelled as sandboxes, and exited or dead
/// (docker ORs the status filters; a running container never matches).
pub open spec fn stale_filters_spec() -> Seq<Seq<char>> {
    seq!["--filter"@, "label=sandseal.project_name"@, "--filter"@, "status=exited"@, "--filter"@, "status=dead"@]
}

pub fn stale_filters() -> (r: Vec<String>)
    ensures
        views(r@) == stale_filters_spec(),
{
    let mut v: Vec<String> = Vec::new();
    v.push("--filter".to_owned());
    v.push("label=sandseal.project_name".to_owned());
    v.push("--filter".to_owned());
    v.push("status=exited".to_owned());
    v.push("--filter".to_owned());
    v.push("status=dead".to_owned());
    proof {
        assert(views(v@) =~= stale_filters_spec());
    }
    v
}

/// `ps -a <filters> --format {{.ID}}`: the IDs of every container the filters match.
pub fn ps_args(filters: &Vec<String>) -> (r: Vec<String>)
    ensures
        views(r@) == seq!["ps"@, "-a"@] + views(filters@) + seq!["--format"@, "{{.ID}}"@],
{
    let mut v: Vec<String> = Vec::new();
    v.push("ps".to_owned());
    v.push("-a".to_owned());
    let mut i: usize = 0;
    while i < filters.len()
        invariant
            i <= filters.len(),
            views(v@) == seq!["ps"@, "-a"@] + views(filters@).take(i as int),
        decreases filters.len() - i,
    {
        let ghost before = views(v@);
        v.push(filters[i].as_str().to_owned());
        proof {
            assert(views(v@) =~= before.push(filters@[i as int]@));
            assert(views(filters@).take(i + 1) =~= views(filters@).take(i as int).push(filters@[i as int]@));
            assert(views(v@) =~= seq!["ps"@, "-a"@] + views(filters@).take(i + 1));
        }
        i = i + 1;
    }
    let ghost mid = views(v@);
    v.push("--format".to_owned());
    v.push("{{.ID}}".to_owned());
    proof {
        assert(views(filters@).take(filters@.len() as int) =~= views(filters@));
        assert(views(v@) =~= mid + seq!["--format"@, "{{.ID}}"@]);
    }
    v
}

} // verus!
