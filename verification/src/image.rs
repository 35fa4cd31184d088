//! The sandbox images: a shared base image keyed on everything that goes into it, a thin
//! per-project overlay on top, and the Dockerfile rewrite that lets the legacy builder
//! build them.
use vstd::prelude::*;
use crate::lines::{lines, lines_spec, words, words_spec, indent, indent_spec, join_with, join_spec};
use sha1::Digest;
use crate::text::{views, concat, contains_str, contains_seq, starts_with, str_eq, push_string, push_char, decimal, usize_to_string};

verus! {

/// The repository every sandbox image lives in.
pub const REPO_PREFIX: &'static str = "sandseal-sandbox/agent";

/// Extra apt packages and a setup hook, baked into one image layer.
#[derive(Clone, Debug)]
pub struct Payload {
    pub dependencies: Vec<String>,
    pub setup_script: Option<String>,
}

impl Default for Payload {
    fn default() -> (r: Payload)
        ensures
            r.dependencies@.len() == 0,
            r.setup_script is None,
    {
        Payload { dependencies: Vec::new(), setup_script: None }
    }
}

impl Payload {
    /// No packages and no setup hook.
    pub fn is_empty(&self) -> (r: bool)
        ensures
            r == (self.dependencies@.len() == 0 && self.setup_script is None),
    {
        self.dependencies.len() == 0 && match &self.setup_script {
            Some(_) => false,
            None => true,
        }
    }
}

/// Everything that determines which image(s) a sandbox needs.
pub struct ImageSpec {
    pub agent: String,
    pub project_basename: String,
    pub base_image: String,
    /// Replaces the Ubuntu archive the base image points at, when set.
    pub apt_mirror: Option<String>,
    pub uid: u32,
    pub gid: u32,
    pub username: String,
    pub home: String,
    /// Machine-wide, from settings this project did not touch: goes into the base image.
    pub shared: Payload,
    /// What this project adds on top: goes into its own overlay.
    pub project: Payload,
    pub script_dir: String,
    pub rebuild: bool,
}

/// The SHA-1 digest of some bytes.
pub uninterp spec fn sha1_digest(data: Seq<u8>) -> Seq<u8>;

/// `Sha1::digest`: twenty bytes.
#[verifier::external_body]
fn sha1(data: &[u8]) -> (r: Vec<u8>)
    ensures
        r@ == sha1_digest(data@),
        r@.len() == 20,
{
    sha1::Sha1::digest(data).to_vec()
}

/// Two lower-case hexadecimal digits per byte.
pub open spec fn hex_spec(b: Seq<u8>) -> Seq<char>
    decreases b.len(),
{
    if b.len() == 0 {
        Seq::empty()
    } else {
        hex_spec(b.drop_last()) + crate::session::hex2(b.last())
    }
}

pub(crate) fn hex_digit_char(d: u8) -> (c: char)
    requires
        d < 16,
    ensures
        c == crate::jsontext::hex_digit(d as u32),
{
    if d < 10 {
        ((0x30u8 + d) as char)
    } else {
        ((0x61u8 + d - 10) as char)
    }
}

/// Lower-case hexadecimal of some bytes.
pub fn hex(b: &Vec<u8>) -> (r: String)
    ensures
        r@ == hex_spec(b@),
{
    let mut out = String::new();
    let mut i: usize = 0;
    while i < b.len()
        invariant
            i <= b.len(),
            out@ == hex_spec(b@.take(i as int)),
        decreases b.len() - i,
    {
        proof {
            assert(b@.take(i + 1).drop_last() =~= b@.take(i as int));
        }
        push_char(&mut out, hex_digit_char(b[i] / 16));
        push_char(&mut out, hex_digit_char(b[i] % 16));
        proof {
            assert(out@ =~= hex_spec(b@.take(i + 1)));
        }
        i = i + 1;
    }
    proof {
        assert(b@.take(i as int) =~= b@);
    }
    out
}

/// A string's bytes followed by a zero byte, as the image hash takes each string.
pub open spec fn hashed_str(s: Seq<char>) -> Seq<u8> {
    crate::clipboard::utf8(s) + seq![0u8]
}

/// The little-endian bytes of a 32-bit number.
pub open spec fn le_u32(v: u32) -> Seq<u8> {
    seq![(v % 0x100) as u8, ((v / 0x100) % 0x100) as u8, ((v / 0x10000) % 0x100) as u8, (v / 0x1000000) as u8]
}

fn push_hashed_str(out: &mut Vec<u8>, s: &str)
    ensures
        final(out)@ == old(out)@ + hashed_str(s@),
{
    let b = s.as_bytes();
    let mut i: usize = 0;
    while i < b.len()
        invariant
            i <= b.len(),
            b@ == crate::clipboard::utf8(s@),
            out@ == old(out)@ + b@.take(i as int),
        decreases b.len() - i,
    {
        out.push(b[i]);
        proof {
            assert(b@.take(i + 1) =~= b@.take(i as int).push(b@[i as int]));
        }
        i = i + 1;
    }
    out.push(0u8);
    proof {
        assert(b@.take(i as int) =~= b@);
        assert(out@ =~= old(out)@ + hashed_str(s@));
    }
}

fn push_bytes(out: &mut Vec<u8>, src: &Vec<u8>)
    ensures
        final(out)@ == old(out)@ + src@,
{
    let mut i: usize = 0;
    while i < src.len()
        invariant
            i <= src.len(),
            out@ == old(out)@ + src@.take(i as int),
        decreases src.len() - i,
    {
        out.push(src[i]);
        proof {
            assert(src@.take(i + 1) =~= src@.take(i as int).push(src@[i as int]));
        }
        i = i + 1;
    }
    proof {
        assert(src@.take(i as int) =~= src@);
    }
}

fn push_le(out: &mut Vec<u8>, v: u32)
    ensures
        final(out)@ == old(out)@ + le_u32(v),
{
    out.push((v % 0x100) as u8);
    out.push(((v / 0x100) % 0x100) as u8);
    out.push(((v / 0x10000) % 0x100) as u8);
    out.push((v / 0x1000000) as u8);
    proof {
        assert(out@ =~= old(out)@ + le_u32(v));
    }
}

/// What the base image's tag is a hash of: the base image, the apt mirror, uid, gid,
/// user name and home, the machine-wide packages, the machine-wide setup hook's bytes
/// (when there is one), then the bytes of the base Dockerfile, the entrypoint, the apt
/// wrapper and the agent's install directory.
pub open spec fn base_hash_input(spec: ImageSpec, setup: Option<Seq<u8>>, files: Seq<Seq<u8>>) -> Seq<u8> {
    hashed_str(spec.base_image@) + hashed_str(
        match spec.apt_mirror {
            Some(m) => m@,
            None => Seq::empty(),
        },
    ) + le_u32(spec.uid) + le_u32(spec.gid) + hashed_str(spec.username@) + hashed_str(spec.home@)
        + hashed_str(join_spec(views(spec.shared.dependencies@), " "@)) + (match setup {
        Some(b) => b,
        None => Seq::empty(),
    }) + crate::text::concat_all_bytes(files)
}

/// The base image's tag: `<repo>-<agent>:base-<first twelve hex digits of the hash>`.
pub open spec fn base_tag_spec(agent: Seq<char>, digest: Seq<u8>) -> Seq<char> {
    REPO_PREFIX@ + "-"@ + agent + ":base-"@ + hex_spec(digest).take(12)
}

/// The base image's tag, from the spec and the hashed bytes of the files that go into it
/// (`setup` for the machine-wide setup hook, when there is one, and `files` for the
/// Dockerfile, entrypoint, apt wrapper and agent installs, in that order).
pub fn base_tag(spec: &ImageSpec, setup: &Option<Vec<u8>>, files: &Vec<Vec<u8>>) -> (r: String)
    ensures
        r@ == base_tag_spec(
            spec.agent@,
            sha1_digest(
                base_hash_input(
                    *spec,
                    match setup {
                        Some(b) => Some(b@),
                        None => None,
                    },
                    files@.map_values(|f: Vec<u8>| f@),
                ),
            ),
        ),
{
    let mut data: Vec<u8> = Vec::new();
    push_hashed_str(&mut data, spec.base_image.as_str());
    match &spec.apt_mirror {
        Some(m) => push_hashed_str(&mut data, m.as_str()),
        None => push_hashed_str(&mut data, ""),
    }
    proof {
        reveal_strlit("");
    }
    push_le(&mut data, spec.uid);
    push_le(&mut data, spec.gid);
    push_hashed_str(&mut data, spec.username.as_str());
    push_hashed_str(&mut data, spec.home.as_str());
    let deps = join_with(&spec.shared.dependencies, " ");
    push_hashed_str(&mut data, deps.as_str());
    let ghost before_setup = data@;
    match setup {
        Some(b) => push_bytes(&mut data, b),
        None => {},
    }
    let ghost before_files = data@;
    let ghost fv = files@.map_values(|f: Vec<u8>| f@);
    let mut i: usize = 0;
    while i < files.len()
        invariant
            i <= files.len(),
            fv == files@.map_values(|f: Vec<u8>| f@),
            data@ == before_files + crate::text::concat_all_bytes(fv.take(i as int)),
        decreases files.len() - i,
    {
        proof {
            assert(fv.take(i + 1).drop_last() =~= fv.take(i as int));
            assert(fv.take(i + 1).last() == files@[i as int]@);
        }
        push_bytes(&mut data, &files[i]);
        proof {
            assert(data@ =~= before_files + crate::text::concat_all_bytes(fv.take(i + 1)));
        }
        i = i + 1;
    }
    proof {
        assert(fv.take(i as int) =~= fv);
        assert(data@ =~= base_hash_input(
            *spec,
            match setup {
                Some(b) => Some(b@),
                None => None,
            },
            fv,
        ));
    }
    let digest = sha1(data.as_slice());
    let h = hex(&digest);
    proof {
        assert(h@.len() == 40) by {
            lemma_hex_len(digest@);
        }
    }
    let short = crate::text::prefix_chars(h.as_str(), 12);
    let t = concat(REPO_PREFIX, "-");
    let t = concat(t.as_str(), spec.agent.as_str());
    let t = concat(t.as_str(), ":base-");
    concat(t.as_str(), short.as_str())
}

proof fn lemma_hex_len(b: Seq<u8>)
    ensures
        hex_spec(b).len() == 2 * b.len(),
    decreases b.len(),
{
    if b.len() > 0 {
        lemma_hex_len(b.drop_last());
    }
}

/// What an overlay's tag is a hash of: the base image's ID, the project's packages, and
/// the project's setup hook's bytes when there is one.
pub open spec fn overlay_hash_input(base_id: Seq<char>, project: Payload, setup: Option<Seq<u8>>) -> Seq<u8> {
    hashed_str(base_id) + hashed_str(join_spec(views(project.dependencies@), " "@)) + match setup {
        Some(b) => b,
        None => Seq::empty(),
    }
}

/// The overlay's tag: `<repo>-<agent>:<project>-<first eight hex digits of the hash>`.
pub open spec fn overlay_tag_spec(agent: Seq<char>, project: Seq<char>, digest: Seq<u8>) -> Seq<char> {
    REPO_PREFIX@ + "-"@ + agent + ":"@ + project + "-"@ + hex_spec(digest).take(8)
}

/// The project overlay's tag, keyed on the base image's ID (its tag when the ID is not
/// known) so that a rebuilt base gets new overlays.
pub fn overlay_tag(spec: &ImageSpec, base_id: &str, setup: &Option<Vec<u8>>) -> (r: String)
    ensures
        r@ == overlay_tag_spec(
            spec.agent@,
            spec.project_basename@,
            sha1_digest(
                overlay_hash_input(
                    base_id@,
                    spec.project,
                    match setup {
                        Some(b) => Some(b@),
                        None => None,
                    },
                ),
            ),
        ),
{
    let mut data: Vec<u8> = Vec::new();
    push_hashed_str(&mut data, base_id);
    let deps = join_with(&spec.project.dependencies, " ");
    push_hashed_str(&mut data, deps.as_str());
    match setup {
        Some(b) => push_bytes(&mut data, b),
        None => {},
    }
    proof {
        assert(data@ =~= overlay_hash_input(
            base_id@,
            spec.project,
            match setup {
                Some(b) => Some(b@),
                None => None,
            },
        ));
    }
    let digest = sha1(data.as_slice());
    let h = hex(&digest);
    proof {
        lemma_hex_len(digest@);
    }
    let short = crate::text::prefix_chars(h.as_str(), 8);
    let t = concat(REPO_PREFIX, "-");
    let t = concat(t.as_str(), spec.agent.as_str());
    let t = concat(t.as_str(), ":");
    let t = concat(t.as_str(), spec.project_basename.as_str());
    let t = concat(t.as_str(), "-");
    concat(t.as_str(), short.as_str())
}

/// The bytes of an optional file, as a spec value.
pub open spec fn opt_bytes_view(o: Option<Vec<u8>>) -> Option<Seq<u8>> {
    match o {
        Some(b) => Some(b@),
        None => None,
    }
}

/// The tag of the image a sandbox runs: the base image's tag when the project adds
/// nothing; else the project overlay's tag, keyed on the base image's ID as docker reports
/// it (`base_id`), or on the base image's tag when no ID is known.
pub open spec fn run_tag_spec(
    spec: ImageSpec,
    shared_setup: Option<Seq<u8>>,
    base_files: Seq<Seq<u8>>,
    base_id: Option<Seq<char>>,
    project_setup: Option<Seq<u8>>,
) -> Seq<char> {
    let base = base_tag_spec(spec.agent@, sha1_digest(base_hash_input(spec, shared_setup, base_files)));
    if spec.project.dependencies@.len() == 0 && spec.project.setup_script is None {
        base
    } else {
        overlay_tag_spec(
            spec.agent@,
            spec.project_basename@,
            sha1_digest(
                overlay_hash_input(
                    match base_id {
                        Some(i) => i,
                        None => base,
                    },
                    spec.project,
                    project_setup,
                ),
            ),
        )
    }
}

/// The tag of the image a sandbox runs, from what goes into the images: the bytes of the
/// machine-wide setup hook and of the base image's files (as for `base_tag`), the base
/// image's ID where docker knows it, and the bytes of the project's setup hook. The base
/// image runs when the project adds nothing, else the project's overlay.
pub fn ensure_images(
    spec: &ImageSpec,
    shared_setup: &Option<Vec<u8>>,
    base_files: &Vec<Vec<u8>>,
    base_id: &Option<String>,
    project_setup: &Option<Vec<u8>>,
) -> (r: String)
    ensures
        r@ == run_tag_spec(
            *spec,
            opt_bytes_view(*shared_setup),
            base_files@.map_values(|f: Vec<u8>| f@),
            match base_id {
                Some(i) => Some(i@),
                None => None,
            },
            opt_bytes_view(*project_setup),
        ),
{
    let base = base_tag(spec, shared_setup, base_files);
    if spec.project.is_empty() {
        base
    } else {
        match base_id {
            Some(id) => overlay_tag(spec, id.as_str(), project_setup),
            None => overlay_tag(spec, base.as_str(), project_setup),
        }
    }
}

/// Whether an image must be built: when it does not exist yet, or a rebuild was asked
/// for.
pub fn build_needed(spec: &ImageSpec, present: bool) -> (r: bool)
    ensures
        r == (!present || spec.rebuild),
{
    !present || spec.rebuild
}

/// A word that is a cache-mount flag.
pub open spec fn is_mount_flag(t: Seq<char>) -> bool {
    t.len() >= 8 && t.take(8) == "--mount="@
}

/// The words that are not cache-mount flags.
pub open spec fn unmounted(ws: Seq<Seq<char>>) -> Seq<Seq<char>>
    decreases ws.len(),
{
    if ws.len() == 0 {
        ws
    } else if is_mount_flag(ws.last()) {
        unmounted(ws.drop_last())
    } else {
        unmounted(ws.drop_last()).push(ws.last())
    }
}

/// What becomes of one line: gone when only mount flags were on it (or only a line
/// continuation after them); unchanged when it held none; else its indent and the words
/// left, joined by single spaces. Each line kept ends in a newline.
pub open spec fn stripped_line(line: Seq<char>) -> Option<Seq<char>> {
    let ws = words_spec(line);
    let kept = unmounted(ws);
    if kept.len() == 0 || (kept == seq!["\\"@] && contains_seq(line, "--mount="@)) {
        None
    } else if kept.len() == ws.len() {
        Some(line + "\n"@)
    } else {
        Some(indent_spec(line) + join_spec(kept, " "@) + "\n"@)
    }
}

pub open spec fn stripped_lines(ls: Seq<Seq<char>>) -> Seq<char>
    decreases ls.len(),
{
    if ls.len() == 0 {
        Seq::empty()
    } else {
        stripped_lines(ls.drop_last()) + match stripped_line(ls.last()) {
            Some(l) => l,
            None => Seq::empty(),
        }
    }
}

fn strip_line(line: &str) -> (r: Option<String>)
    ensures
        match stripped_line(line@) {
            Some(l) => r matches Some(x) && x@ == l,
            None => r is None,
        },
{
    let ws = words(line);
    let ghost wv = views(ws@);
    let mut kept: Vec<String> = Vec::new();
    let mut i: usize = 0;
    proof {
        assert(wv.take(0) =~= Seq::<Seq<char>>::empty());
        assert(views(kept@) =~= Seq::<Seq<char>>::empty());
        reveal_strlit("--mount=");
    }
    while i < ws.len()
        invariant
            i <= ws.len(),
            wv == views(ws@),
            views(kept@) == unmounted(wv.take(i as int)),
            "--mount="@.len() == 8,
        decreases ws.len() - i,
    {
        proof {
            assert(wv.take(i + 1).drop_last() =~= wv.take(i as int));
            assert(wv.take(i + 1).last() == ws@[i as int]@);
        }
        if !starts_with(ws[i].as_str(), "--mount=") {
            push_string(&mut kept, ws[i].clone());
        }
        i = i + 1;
    }
    proof {
        assert(wv.take(i as int) =~= wv);
    }
    let lone_continuation = kept.len() == 1 && str_eq(kept[0].as_str(), "\\");
    proof {
        if kept.len() == 1 {
            assert(views(kept@)[0] == kept@[0]@);
            assert(seq!["\\"@][0] == "\\"@);
            assert((views(kept@) == seq!["\\"@]) == (kept@[0]@ == "\\"@)) by {
                if kept@[0]@ == "\\"@ {
                    assert(views(kept@) =~= seq!["\\"@]);
                }
            }
        } else {
            assert(views(kept@) != seq!["\\"@]) by {
                assert(views(kept@).len() != 1);
            }
        }
    }
    if kept.len() == 0 || (lone_continuation && contains_str(line, "--mount=")) {
        return None;
    }
    if kept.len() == ws.len() {
        Some(concat(line, "\n"))
    } else {
        let mut out = indent(line);
        let joined = join_with(&kept, " ");
        out.append(joined.as_str());
        out.append("\n");
        Some(out)
    }
}

/// Drops the `--mount=` flags so the legacy builder can parse the Dockerfile. Lines left
/// holding nothing but a line continuation are dropped whole; the `RUN` itself keeps its
/// trailing backslash and joins with the command below it.
pub fn strip_cache_mounts(dockerfile: &str) -> (r: String)
    ensures
        r@ == stripped_lines(lines_spec(dockerfile@)),
{
    let ls = lines(dockerfile);
    let ghost lv = views(ls@);
    let mut out = String::new();
    let mut i: usize = 0;
    proof {
        assert(lv.take(0) =~= Seq::<Seq<char>>::empty());
    }
    while i < ls.len()
        invariant
            i <= ls.len(),
            lv == views(ls@),
            out@ == stripped_lines(lv.take(i as int)),
        decreases ls.len() - i,
    {
        proof {
            assert(lv.take(i + 1).drop_last() =~= lv.take(i as int));
            assert(lv.take(i + 1).last() == ls@[i as int]@);
        }
        let ghost before = out@;
        match strip_line(ls[i].as_str()) {
            Some(l) => {
                out.append(l.as_str());
            },
            None => {
                proof {
                    assert(before + Seq::<char>::empty() =~= before);
                }
            },
        }
        i = i + 1;
    }
    proof {
        assert(lv.take(i as int) =~= lv);
    }
    out
}

/// The views of name/value pairs.
pub open spec fn pair_views(v: Seq<(String, String)>) -> Seq<(Seq<char>, Seq<char>)> {
    v.map_values(|p: (String, String)| (p.0@, p.1@))
}

/// The text of an optional setting, empty when unset.
pub open spec fn or_empty(o: Option<String>) -> Seq<char> {
    match o {
        Some(s) => s@,
        None => Seq::empty(),
    }
}

/// The build arguments of the base image; `CACHEBUST` comes last, and only on a forced
/// rebuild.
pub open spec fn base_build_args_spec(spec: &ImageSpec, cachebust: Seq<char>) -> Seq<(Seq<char>, Seq<char>)> {
    let core = seq![
        ("BASE_IMAGE"@, spec.base_image@),
        ("UID"@, decimal(spec.uid as nat)),
        ("GID"@, decimal(spec.gid as nat)),
        ("AGENT_USERNAME"@, spec.username@),
        ("AGENT_HOME"@, spec.home@),
        ("SHARED_PACKAGES"@, join_spec(views(spec.shared.dependencies@), " "@)),
        ("APT_MIRROR"@, or_empty(spec.apt_mirror)),
    ];
    if spec.rebuild {
        core.push(("CACHEBUST"@, cachebust))
    } else {
        core
    }
}

fn pair(k: &str, v: String) -> (r: (String, String))
    ensures
        r.0@ == k@,
        r.1@ == v@,
{
    (k.to_owned(), v)
}

/// The build arguments of the base image.
pub fn base_build_args(spec: &ImageSpec, cachebust: &str) -> (r: Vec<(String, String)>)
    ensures
        pair_views(r@) == base_build_args_spec(spec, cachebust@),
{
    let mut v: Vec<(String, String)> = Vec::new();
    v.push(pair("BASE_IMAGE", spec.base_image.clone()));
    v.push(pair("UID", usize_to_string(spec.uid as usize)));
    v.push(pair("GID", usize_to_string(spec.gid as usize)));
    v.push(pair("AGENT_USERNAME", spec.username.clone()));
    v.push(pair("AGENT_HOME", spec.home.clone()));
    v.push(pair("SHARED_PACKAGES", join_with(&spec.shared.dependencies, " ")));
    let mirror = match &spec.apt_mirror {
        Some(m) => m.clone(),
        None => String::new(),
    };
    v.push(pair("APT_MIRROR", mirror));
    if spec.rebuild {
        v.push(pair("CACHEBUST", cachebust.to_owned()));
    }
    proof {
        assert(pair_views(v@) =~= base_build_args_spec(spec, cachebust@));
    }
    v
}

/// The build arguments of a project's overlay.
pub open spec fn overlay_build_args_spec(spec: &ImageSpec, base_tag: Seq<char>, cachebust: Seq<char>) -> Seq<(Seq<char>, Seq<char>)> {
    let core = seq![
        ("BASE"@, base_tag),
        ("EXTRA_PACKAGES"@, join_spec(views(spec.project.dependencies@), " "@)),
    ];
    if spec.rebuild {
        core.push(("CACHEBUST"@, cachebust))
    } else {
        core
    }
}

/// The build arguments of a project's overlay, on top of `base_tag`.
pub fn overlay_build_args(spec: &ImageSpec, base_tag: &str, cachebust: &str) -> (r: Vec<(String, String)>)
    ensures
        pair_views(r@) == overlay_build_args_spec(spec, base_tag@, cachebust@),
{
    let mut v: Vec<(String, String)> = Vec::new();
    v.push(pair("BASE", base_tag.to_owned()));
    v.push(pair("EXTRA_PACKAGES", join_with(&spec.project.dependencies, " ")));
    if spec.rebuild {
        v.push(pair("CACHEBUST", cachebust.to_owned()));
    }
    proof {
        assert(pair_views(v@) =~= overlay_build_args_spec(spec, base_tag@, cachebust@));
    }
    v
}

/// `--build-arg KEY=VALUE` for each pair, in order.
pub open spec fn build_arg_flags(args: Seq<(Seq<char>, Seq<char>)>) -> Seq<Seq<char>>
    decreases args.len(),
{
    if args.len() == 0 {
        Seq::empty()
    } else {
        build_arg_flags(args.drop_last()) + seq!["--build-arg"@, args.last().0 + "="@ + args.last().1]
    }
}

/// The arguments of `docker build`: the tag, the Dockerfile, each build argument, and the
/// context directory last.
pub open spec fn build_command_spec(tag: Seq<char>, dockerfile: Seq<char>, context: Seq<char>, args: Seq<(Seq<char>, Seq<char>)>) -> Seq<Seq<char>> {
    seq!["build"@, "-t"@, tag, "-f"@, dockerfile] + build_arg_flags(args) + seq![context]
}

/// The arguments `docker` is run with to build an image.
pub fn build_command_args(tag: &str, dockerfile: &str, context: &str, args: &Vec<(String, String)>) -> (r: Vec<String>)
    ensures
        views(r@) == build_command_spec(tag@, dockerfile@, context@, pair_views(args@)),
{
    let mut v: Vec<String> = Vec::new();
    v.push("build".to_owned());
    v.push("-t".to_owned());
    v.push(tag.to_owned());
    v.push("-f".to_owned());
    v.push(dockerfile.to_owned());
    let ghost head = views(v@);
    let mut i: usize = 0;
    proof {
        assert(pair_views(args@).take(0) =~= Seq::<(Seq<char>, Seq<char>)>::empty());
        assert(views(v@) =~= head + build_arg_flags(pair_views(args@).take(0)));
    }
    while i < args.len()
        invariant
            i <= args.len(),
            head == seq!["build"@, "-t"@, tag@, "-f"@, dockerfile@],
            views(v@) == head + build_arg_flags(pair_views(args@).take(i as int)),
        decreases args.len() - i,
    {
        let ghost before = views(v@);
        v.push("--build-arg".to_owned());
        let kv = concat(args[i].0.as_str(), "=");
        let kv = concat(kv.as_str(), args[i].1.as_str());
        v.push(kv);
        proof {
            let pv = pair_views(args@);
            assert(pv.take(i + 1).drop_last() =~= pv.take(i as int));
            assert(pv.take(i + 1).last() == pv[i as int]);
            assert(views(v@) =~= before + seq!["--build-arg"@, pv[i as int].0 + "="@ + pv[i as int].1]);
        }
        i = i + 1;
    }
    let ghost mid = views(v@);
    v.push(context.to_owned());
    proof {
        assert(pair_views(args@).take(args@.len() as int) =~= pair_views(args@));
        assert(views(v@) =~= mid.push(context@));
    }
    v
}

/// What `docker image inspect -f {{.Id}}` reported: the ID, its text trimmed, when the
/// command succeeded and printed one.
pub open spec fn image_id_spec(success: bool, stdout: Seq<u8>) -> Option<Seq<char>> {
    let id = crate::title::trim_spec(crate::clipboard::utf8_lossy(stdout));
    if success && id.len() > 0 {
        Some(id)
    } else {
        None
    }
}

/// An image's content ID from the output of the inspect command.
pub fn image_id_from_output(success: bool, stdout: &Vec<u8>) -> (r: Option<String>)
    ensures
        match image_id_spec(success, stdout@) {
            Some(id) => r matches Some(x) && x@ == id,
            None => r is None,
        },
{
    if !success {
        return None;
    }
    let text = crate::clipboard::from_utf8_lossy(stdout.as_slice());
    let id = crate::title::trim(text.as_str());
    if id.as_str().is_empty() {
        None
    } else {
        Some(id)
    }
}

/// A number written with at least three digits, zeros in front.
pub open spec fn padded3(n: nat) -> Seq<char> {
    if n < 10 {
        "00"@ + decimal(n)
    } else if n < 100 {
        "0"@ + decimal(n)
    } else {
        decimal(n)
    }
}

/// The name a prestart script gets in the instance's scripts directory: its position,
/// three digits wide, so that the scripts run in order, then its own file name.
pub fn prestart_file_name(index: usize, file_name: &str) -> (r: String)
    ensures
        r@ == padded3(index as nat) + "-"@ + file_name@,
{
    let digits = usize_to_string(index);
    let prefix = if index < 10 {
        concat("00", digits.as_str())
    } else if index < 100 {
        concat("0", digits.as_str())
    } else {
        digits
    };
    let p = concat(prefix.as_str(), "-");
    concat(p.as_str(), file_name)
}

/// What the file system holds at a path whose contents go into an image hash: a file's
/// bytes, a directory's entries (name and contents), or neither.
pub enum FsEntry {
    File(Vec<u8>),
    Dir(Vec<(String, FsEntry)>),
    Other,
}

/// Among the entries below `n` that `taken` does not hold, the one whose name sorts first
/// (the earliest on a tie); -1 when there is none.
pub open spec fn first_untaken(s: Seq<(String, FsEntry)>, taken: Seq<int>, n: nat) -> int
    decreases n,
{
    if n == 0 {
        -1
    } else {
        let b = first_untaken(s, taken, (n - 1) as nat);
        let j = n - 1;
        if taken.contains(j) {
            b
        } else if b == -1 || crate::keys::key_lt(s[j].0@, s[b].0@) {
            j
        } else {
            b
        }
    }
}

/// The entries picked in the first `k` rounds of taking the first name not yet taken.
pub open spec fn picked(s: Seq<(String, FsEntry)>, k: nat) -> Seq<int>
    decreases k,
{
    if k == 0 {
        Seq::empty()
    } else {
        let t = picked(s, (k - 1) as nat);
        t.push(first_untaken(s, t, s.len()))
    }
}

/// The bytes a path contributes to an image hash: a file's bytes; for a directory, each
/// entry in name order, its name (as a hashed string) then its own bytes; nothing else.
pub open spec fn entry_bytes(e: FsEntry) -> Seq<u8>
    decreases e, 0nat,
{
    match e {
        FsEntry::File(b) => b@,
        FsEntry::Dir(v) => dir_bytes(v@, v@.len()),
        FsEntry::Other => Seq::empty(),
    }
}

/// The bytes of a directory's first `k` entries in name order.
pub open spec fn dir_bytes(s: Seq<(String, FsEntry)>, k: nat) -> Seq<u8>
    decreases s, k,
{
    if k == 0 {
        Seq::empty()
    } else {
        let i = first_untaken(s, picked(s, (k - 1) as nat), s.len());
        dir_bytes(s, (k - 1) as nat) + if 0 <= i < s.len() {
            hashed_str(s[i].0@) + entry_bytes(s[i].1)
        } else {
            Seq::empty()
        }
    }
}

proof fn lemma_push_contains<A>(t: Seq<A>, x: A, j: A)
    ensures
        t.push(x).contains(j) <==> (t.contains(j) || j == x),
{
    if t.contains(j) {
        let q = choose|q: int| 0 <= q < t.len() && t[q] == j;
        assert(t.push(x)[q] == j);
    }
    if j == x {
        assert(t.push(x)[t.len() as int] == j);
    }
    if t.push(x).contains(j) {
        let q = choose|q: int| 0 <= q < t.push(x).len() && t.push(x)[q] == j;
        if q < t.len() {
            assert(t[q] == j);
        }
    }
}

proof fn lemma_first_untaken_range(s: Seq<(String, FsEntry)>, taken: Seq<int>, n: nat)
    requires
        n <= s.len(),
    ensures
        -1 <= first_untaken(s, taken, n) < n,
        first_untaken(s, taken, n) >= 0 ==> !taken.contains(first_untaken(s, taken, n)),
    decreases n,
{
    if n > 0 {
        lemma_first_untaken_range(s, taken, (n - 1) as nat);
    }
}

fn contains_index(v: &Vec<usize>, j: usize) -> (r: bool)
    ensures
        r == v@.contains(j),
{
    let mut i: usize = 0;
    while i < v.len()
        invariant
            i <= v.len(),
            forall|k: int| 0 <= k < i ==> v@[k] != j,
        decreases v.len() - i,
    {
        if v[i] == j {
            proof {
                assert(v@[i as int] == j);
            }
            return true;
        }
        i = i + 1;
    }
    false
}

/// The untaken entry whose name sorts first.
fn first_untaken_exec(v: &Vec<(String, FsEntry)>, taken: &Vec<usize>, Ghost(t): Ghost<Seq<int>>) -> (r: Option<usize>)
    requires
        forall|j: int| 0 <= j < v@.len() ==> (t.contains(j) <==> taken@.contains(j as usize)),
    ensures
        match r {
            Some(i) => i as int == first_untaken(v@, t, v@.len()) && i < v@.len(),
            None => first_untaken(v@, t, v@.len()) == -1,
        },
{
    let mut best: Option<usize> = None;
    let mut j: usize = 0;
    while j < v.len()
        invariant
            j <= v.len(),
            forall|x: int| 0 <= x < v@.len() ==> (t.contains(x) <==> taken@.contains(x as usize)),
            match best {
                Some(b) => b as int == first_untaken(v@, t, j as nat) && b < j,
                None => first_untaken(v@, t, j as nat) == -1,
            },
        decreases v.len() - j,
    {
        proof {
            lemma_first_untaken_range(v@, t, j as nat);
        }
        if !contains_index(taken, j) {
            match best {
                None => {
                    best = Some(j);
                },
                Some(b) => {
                    if crate::keys::compare_keys(v[j].0.as_str(), v[b].0.as_str()) < 0 {
                        best = Some(j);
                    }
                },
            }
        }
        j = j + 1;
    }
    best
}

/// The bytes a path contributes to an image hash, directories walked in name order.
pub fn tree_bytes(e: &FsEntry) -> (r: Vec<u8>)
    ensures
        r@ == entry_bytes(*e),
    decreases e, 0nat,
{
    match e {
        FsEntry::File(b) => {
            let mut out: Vec<u8> = Vec::new();
            push_bytes(&mut out, b);
            proof {
                assert(out@ =~= b@);
            }
            out
        },
        FsEntry::Dir(v) => dir_tree_bytes(v),
        FsEntry::Other => Vec::new(),
    }
}

fn dir_tree_bytes(v: &Vec<(String, FsEntry)>) -> (r: Vec<u8>)
    ensures
        r@ == dir_bytes(v@, v@.len()),
    decreases v, 1nat,
{
    let mut out: Vec<u8> = Vec::new();
    let mut taken: Vec<usize> = Vec::new();
    let ghost mut t: Seq<int> = Seq::empty();
    let mut k: usize = 0;
    while k < v.len()
        invariant
            k <= v.len(),
            t == picked(v@, k as nat),
            out@ == dir_bytes(v@, k as nat),
            forall|j: int| 0 <= j < v@.len() ==> (t.contains(j) <==> taken@.contains(j as usize)),
        decreases v.len() - k,
    {
        let pick = first_untaken_exec(v, &taken, Ghost(t));
        let ghost i = first_untaken(v@, t, v@.len());
        let ghost old_taken = taken@;
        match pick {
            Some(p) => {
                let name = v[p].0.as_str();
                push_hashed_str(&mut out, name);
                let inner = tree_bytes(&v[p].1);
                push_bytes(&mut out, &inner);
                taken.push(p);
                proof {
                    assert forall|j: int| 0 <= j < v@.len() implies (t.push(i).contains(j) <==> taken@.contains(j as usize)) by {
                        lemma_push_contains(t, i, j);
                        lemma_push_contains(old_taken, p, j as usize);
                    }
                }
            },
            None => {
                proof {
                    assert forall|j: int| 0 <= j < v@.len() implies (t.push(i).contains(j) <==> taken@.contains(j as usize)) by {
                        lemma_push_contains(t, i, j);
                    }
                }
            },
        }
        proof {
            t = t.push(i);
        }
        k = k + 1;
    }
    out
}

/// The value that defeats the build cache on a forced rebuild: the current Unix time in
/// seconds, or `1` when the clock reads before the epoch.
pub fn cachebust(unix_secs: Option<u64>) -> (r: String)
    ensures
        r@ == match unix_secs {
            Some(t) => decimal(t as nat),
            None => "1"@,
        },
{
    match unix_secs {
        Some(t) => crate::text::u64_to_string(t),
        None => "1".to_owned(),
    }
}

/// Law: the machine-wide setup hook goes into the base image's hash. Its bytes stand in the
/// hashed input between the user's settings and packages and the image's own files, so two
/// bases that differ only in the hook, or in having one, hash different inputs: adding or
/// editing the hook keys a new base image.
pub proof fn law_setup_hook_is_hashed(spec: ImageSpec, files: Seq<Seq<u8>>, a: Seq<u8>, b: Seq<u8>)
    ensures
        base_hash_input(spec, Some(a), files) == base_hash_input(spec, None, Seq::empty()) + a
            + crate::text::concat_all_bytes(files),
        base_hash_input(spec, None, files) == base_hash_input(spec, None, Seq::empty())
            + crate::text::concat_all_bytes(files),
        base_hash_input(spec, Some(a), files) == base_hash_input(spec, Some(b), files) ==> a == b,
        a.len() > 0 ==> base_hash_input(spec, Some(a), files) != base_hash_input(spec, None, files),
{
    let pre = base_hash_input(spec, None, Seq::empty());
    let tail = crate::text::concat_all_bytes(files);
    assert(crate::text::concat_all_bytes(Seq::<Seq<u8>>::empty()) =~= Seq::<u8>::empty());
    assert(pre + Seq::<u8>::empty() + Seq::<u8>::empty() =~= pre);
    assert(base_hash_input(spec, Some(a), files) =~= pre + a + tail);
    assert(base_hash_input(spec, None, files) =~= pre + tail);
    if base_hash_input(spec, Some(a), files) == base_hash_input(spec, Some(b), files) {
        let x = pre + a + tail;
        let y = pre + b + tail;
        assert(x.len() == y.len());
        assert(a.len() == b.len());
        assert forall|i: int| 0 <= i < a.len() implies a[i] == b[i] by {
            assert(x[pre.len() + i] == a[i]);
            assert(y[pre.len() + i] == b[i]);
        }
        assert(a =~= b);
    }
    if a.len() > 0 {
        assert((pre + a + tail).len() != (pre + tail).len());
    }
}

} // verus!
