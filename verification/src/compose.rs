//! The docker-compose override that runs one sandbox instance: its mounts, environment,
//! labels, command and network, rendered as YAML.
use vstd::prelude::*;
use crate::config::{Settings, ContainerSettings};
use crate::jsontext::{json_string_list, to_json_string_list, parse_string_list, from_json_string_list};
use crate::memory::MemorySession;
use crate::text::{views, concat, concat_all, append_all, push_string, extend_strings, push_char, str_eq, split_on, split_spec};
use crate::path::{
    Probe, ExclusionMount, MountView, exclusions_spec, probe_views, mount_views, subdir_spec,
    resolve_exclusions, resolve_inclusions, inclusions_spec, pair_views, resolve_host_path,
    host_path_spec, env_view, expand_env_vars, expand_spec, join, join_spec,
};

verus! {

/// Everything about the instance that the override depends on.
pub struct ComposeContext {
    pub project_dir: String,
    pub project_name: String,
    pub instance_name: String,
    pub image: String,
    pub sandbox_home: String,
    pub debug: bool,
    pub agent_args: Vec<String>,
    pub settings: Settings,
    pub tmp_dir: String,
    pub script_dir: String,
    /// Memory credential for this session; none means no memory.
    pub memory: Option<MemorySession>,
}

/// Name/value pairs as character sequences.
pub open spec fn pairs_view(v: Seq<(String, String)>) -> Seq<(Seq<char>, Seq<char>)> {
    v.map_values(|p: (String, String)| (p.0@, p.1@))
}

/// `      - "<item>"` and a newline, for each item.
pub open spec fn list_lines(items: Seq<Seq<char>>) -> Seq<Seq<char>> {
    items.map_values(|x: Seq<char>| "      - \""@ + x + "\"\n"@)
}

/// `      <key>: "<value>"` and a newline, for each pair.
pub open spec fn map_lines(pairs: Seq<(Seq<char>, Seq<char>)>) -> Seq<Seq<char>> {
    pairs.map_values(|p: (Seq<char>, Seq<char>)| "      "@ + p.0 + ": \""@ + p.1 + "\"\n"@)
}

/// A titled block of lines, or nothing when there are no lines.
pub open spec fn block(title: Seq<char>, lines: Seq<Seq<char>>) -> Seq<char> {
    if lines.len() == 0 {
        Seq::empty()
    } else {
        title + concat_all(lines)
    }
}

/// The memory limits of the container settings.
pub open spec fn limits_text(container: Option<ContainerSettings>) -> Seq<char> {
    match container {
        Some(c) => (match c.memory_limit {
            Some(m) => "    mem_limit: "@ + m@ + "\n"@,
            None => Seq::empty(),
        }) + (match c.memory_swap_limit {
            Some(m) => "    memswap_limit: "@ + m@ + "\n"@,
            None => Seq::empty(),
        }),
        None => Seq::empty(),
    }
}

/// The named volumes, pinned to fixed names so that they outlive each instance.
pub open spec fn volumes_footer() -> Seq<char> {
    "\nvolumes:\n  sandseal-agent-home:\n    name: sandseal-sandbox-agent-home\n    external: false\n  sandseal-apt-cache:\n    name: sandseal-sandbox-apt-cache\n    external: false\n"@
}

/// The override YAML.
pub open spec fn yaml_spec(
    image: Seq<char>,
    volumes: Seq<Seq<char>>,
    environment: Seq<(Seq<char>, Seq<char>)>,
    labels: Seq<(Seq<char>, Seq<char>)>,
    command: Seq<Seq<char>>,
    host_network: bool,
    extra_hosts: Seq<(Seq<char>, Seq<char>)>,
    container: Option<ContainerSettings>,
) -> Seq<char> {
    "services:\n  agent:\n"@ + "    image: "@ + image + "\n"@ + (if host_network {
        "    network_mode: host\n"@
    } else {
        Seq::empty()
    }) + block(
        "    extra_hosts:\n"@,
        list_lines(extra_hosts.map_values(|p: (Seq<char>, Seq<char>)| p.0 + ":"@ + p.1)),
    ) + block("    volumes:\n"@, list_lines(volumes)) + block(
        "    environment:\n"@,
        map_lines(environment),
    ) + block("    labels:\n"@, map_lines(labels)) + limits_text(container) + (if command.len()
        == 0 {
        Seq::empty()
    } else {
        "    command: "@ + json_string_list(command) + "\n"@
    }) + volumes_footer()
}

fn list_lines_of(items: &Vec<String>) -> (r: Vec<String>)
    ensures
        views(r@) == list_lines(views(items@)),
{
    let mut out: Vec<String> = Vec::new();
    let mut i: usize = 0;
    while i < items.len()
        invariant
            i <= items.len(),
            views(out@) == list_lines(views(items@).take(i as int)),
        decreases items.len() - i,
    {
        let line = concat("      - \"", items[i].as_str());
        let line = concat(line.as_str(), "\"\n");
        push_string(&mut out, line);
        proof {
            assert(list_lines(views(items@).take(i + 1)) =~= list_lines(views(items@).take(i as int)).push(
                "      - \""@ + items@[i as int]@ + "\"\n"@,
            ));
        }
        i = i + 1;
    }
    proof {
        assert(views(items@).take(i as int) =~= views(items@));
    }
    out
}

fn map_lines_of(pairs: &Vec<(String, String)>) -> (r: Vec<String>)
    ensures
        views(r@) == map_lines(pairs_view(pairs@)),
{
    let mut out: Vec<String> = Vec::new();
    let mut i: usize = 0;
    while i < pairs.len()
        invariant
            i <= pairs.len(),
            views(out@) == map_lines(pairs_view(pairs@).take(i as int)),
        decreases pairs.len() - i,
    {
        let line = concat("      ", pairs[i].0.as_str());
        let line = concat(line.as_str(), ": \"");
        let line = concat(line.as_str(), pairs[i].1.as_str());
        let line = concat(line.as_str(), "\"\n");
        push_string(&mut out, line);
        proof {
            assert(map_lines(pairs_view(pairs@).take(i + 1)) =~= map_lines(pairs_view(pairs@).take(i as int)).push(
                "      "@ + pairs@[i as int].0@ + ": \""@ + pairs@[i as int].1@ + "\"\n"@,
            ));
        }
        i = i + 1;
    }
    proof {
        assert(pairs_view(pairs@).take(i as int) =~= pairs_view(pairs@));
    }
    out
}

fn append_block(out: &mut String, title: &str, lines: &Vec<String>)
    ensures
        final(out)@ == old(out)@ + block(title@, views(lines@)),
{
    if lines.len() > 0 {
        out.append(title);
        append_all(out, lines);
    } else {
        proof {
            assert(old(out)@ + Seq::<char>::empty() =~= old(out)@);
        }
    }
}

/// Renders the override from its parts.
pub fn format_compose_yaml(
    ctx: &ComposeContext,
    volumes: &Vec<String>,
    environment: &Vec<(String, String)>,
    labels: &Vec<(String, String)>,
    command: &Vec<String>,
    host_network: bool,
    extra_hosts: &Vec<(String, String)>,
) -> (r: String)
    ensures
        r@ == yaml_spec(
            ctx.image@,
            views(volumes@),
            pairs_view(environment@),
            pairs_view(labels@),
            views(command@),
            host_network,
            pairs_view(extra_hosts@),
            ctx.settings.container,
        ),
{
    let mut yaml = "services:\n  agent:\n".to_owned();
    yaml.append("    image: ");
    yaml.append(ctx.image.as_str());
    yaml.append("\n");
    if host_network {
        yaml.append("    network_mode: host\n");
    }
    let mut hosts: Vec<String> = Vec::new();
    let mut i: usize = 0;
    let ghost hv = pairs_view(extra_hosts@).map_values(|p: (Seq<char>, Seq<char>)| p.0 + ":"@ + p.1);
    while i < extra_hosts.len()
        invariant
            i <= extra_hosts.len(),
            hv == pairs_view(extra_hosts@).map_values(|p: (Seq<char>, Seq<char>)| p.0 + ":"@ + p.1),
            views(hosts@) == hv.take(i as int),
        decreases extra_hosts.len() - i,
    {
        let h = concat(extra_hosts[i].0.as_str(), ":");
        let h = concat(h.as_str(), extra_hosts[i].1.as_str());
        push_string(&mut hosts, h);
        proof {
            assert(hv.take(i + 1) =~= hv.take(i as int).push(hv[i as int]));
        }
        i = i + 1;
    }
    proof {
        assert(hv.take(i as int) =~= hv);
    }
    let host_lines = list_lines_of(&hosts);
    append_block(&mut yaml, "    extra_hosts:\n", &host_lines);
    let volume_lines = list_lines_of(volumes);
    append_block(&mut yaml, "    volumes:\n", &volume_lines);
    let env_lines = map_lines_of(environment);
    append_block(&mut yaml, "    environment:\n", &env_lines);
    let label_lines = map_lines_of(labels);
    append_block(&mut yaml, "    labels:\n", &label_lines);
    let ghost before_limits = yaml@;
    match &ctx.settings.container {
        Some(c) => {
            match &c.memory_limit {
                Some(m) => {
                    yaml.append("    mem_limit: ");
                    yaml.append(m.as_str());
                    yaml.append("\n");
                },
                None => {},
            }
            match &c.memory_swap_limit {
                Some(m) => {
                    yaml.append("    memswap_limit: ");
                    yaml.append(m.as_str());
                    yaml.append("\n");
                },
                None => {},
            }
        },
        None => {},
    }
    proof {
        assert(yaml@ =~= before_limits + limits_text(ctx.settings.container));
    }
    if command.len() > 0 {
        let cmd_json = to_json_string_list(command);
        yaml.append("    command: ");
        yaml.append(cmd_json.as_str());
        yaml.append("\n");
    }
    yaml.append("\nvolumes:\n  sandseal-agent-home:\n    name: sandseal-sandbox-agent-home\n    external: false\n  sandseal-apt-cache:\n    name: sandseal-sandbox-apt-cache\n    external: false\n");
    proof {
        assert(yaml@ =~= yaml_spec(
            ctx.image@,
            views(volumes@),
            pairs_view(environment@),
            pairs_view(labels@),
            views(command@),
            host_network,
            pairs_view(extra_hosts@),
            ctx.settings.container,
        ));
    }
    yaml
}


/// `m` with `k` holding `v`: in place where `k` is already a key, appended otherwise.
pub open spec fn assoc_insert(m: Seq<(Seq<char>, Seq<char>)>, k: Seq<char>, v: Seq<char>) -> Seq<
    (Seq<char>, Seq<char>),
>
    decreases m.len(),
{
    if m.len() == 0 {
        seq![(k, v)]
    } else if m[0].0 == k {
        seq![(k, v)] + m.drop_first()
    } else {
        seq![m[0]] + assoc_insert(m.drop_first(), k, v)
    }
}

/// Sets `k` to `v` in a list of variables.
pub fn env_insert(m: &mut Vec<(String, String)>, k: String, v: String)
    ensures
        pairs_view(final(m)@) == assoc_insert(pairs_view(old(m)@), k@, v@),
{
    let ghost mv = pairs_view(m@);
    let ghost kv = k@;
    let ghost vv = v@;
    let mut i: usize = 0;
    proof {
        assert(mv.skip(0) =~= mv);
        assert(mv.take(0) + assoc_insert(mv.skip(0), k@, v@) =~= assoc_insert(mv, k@, v@));
    }
    while i < m.len()
        invariant
            i <= m.len(),
            mv == pairs_view(m@),
            mv == pairs_view(old(m)@),
            kv == k@,
            vv == v@,
            mv.take(i as int) + assoc_insert(mv.skip(i as int), k@, v@) == assoc_insert(mv, k@, v@),
            forall|j: int| 0 <= j < i ==> mv[j].0 != k@,
        decreases m.len() - i,
    {
        proof {
            assert(mv.skip(i as int)[0] == mv[i as int]);
            assert(mv.skip(i as int).drop_first() =~= mv.skip(i + 1));
        }
        if str_eq(m[i].0.as_str(), k.as_str()) {
            proof {
                assert(mv.skip(i as int)[0].0 == kv);
                assert(assoc_insert(mv.skip(i as int), kv, vv) =~= seq![(kv, vv)] + mv.skip(i + 1));
            }
            m.set(i, (k, v));
            proof {
                assert(pairs_view(m@) =~= mv.take(i as int) + assoc_insert(mv.skip(i as int), kv, vv));
            }
            return;
        }
        proof {
            assert(mv.take(i + 1) + assoc_insert(mv.skip(i + 1), k@, v@) =~= mv.take(i as int)
                + assoc_insert(mv.skip(i as int), k@, v@));
        }
        i = i + 1;
    }
    m.push((k, v));
    proof {
        assert(mv.skip(i as int) =~= Seq::<(Seq<char>, Seq<char>)>::empty());
        assert(pairs_view(m@) =~= mv.take(i as int) + seq![(kv, vv)]);
        assert(mv.take(i as int) =~= mv);
    }
}

/// What the host's file system, environment and process say, as far as the override
/// depends on it.
pub struct HostFacts {
    /// The environment that variables in the settings expand against.
    pub env: Vec<(String, String)>,
    /// The user's home directory, when known.
    pub home: Option<String>,
    /// For each `files.exclude` entry, what the file system holds there.
    pub exclusion_probes: Vec<Probe>,
    /// For each `files.include` entry, whether its host path exists.
    pub inclusions_present: Vec<bool>,
    /// The workspace directory exists.
    pub workspace_is_dir: bool,
    /// The machine-wide settings file exists.
    pub settings_file_present: bool,
    /// The bundled skills directory exists.
    pub skills_present: bool,
    /// The rendered memory configuration directory exists.
    pub memory_config_present: bool,
    /// This program's own executable, when it can be located.
    pub own_exe: Option<String>,
    /// The prestart scripts directory exists.
    pub prestart_present: bool,
    /// The agent command file's text, or why it could not be read.
    pub agent_command_file: Result<String, String>,
}

pub open spec fn home_view(h: Option<String>) -> Option<Seq<char>> {
    match h {
        Some(x) => Some(x@),
        None => None,
    }
}

/// The agent command: the command file's list, the memory flags when memory is on, then
/// the user's arguments.
pub open spec fn agent_command_spec(
    file: Result<Seq<char>, Seq<char>>,
    agent_args: Seq<Seq<char>>,
    memory: bool,
) -> Result<Seq<Seq<char>>, Seq<char>> {
    match file {
        Err(e) => Err(e),
        Ok(text) => match parse_string_list(text) {
            Err(e) => Err(e),
            Ok(cmd) => Ok(cmd + (if memory {
                crate::memory::agent_flags_spec()
            } else {
                Seq::empty()
            }) + agent_args),
        },
    }
}

/// The agent command from the list that the command file holds: that list, then the
/// memory flags when memory is on, then the user's arguments, last so that they can still
/// override anything added before them.
pub fn agent_command(listed: Vec<String>, agent_args: &Vec<String>, memory: bool) -> (r: Vec<String>)
    ensures
        views(r@) == views(listed@) + (if memory {
            crate::memory::agent_flags_spec()
        } else {
            Seq::empty()
        }) + views(agent_args@),
{
    let mut cmd = listed;
    let ghost c0 = views(cmd@);
    if memory {
        extend_strings(&mut cmd, crate::memory::agent_flags());
    } else {
        proof {
            assert(c0 + Seq::<Seq<char>>::empty() =~= c0);
        }
    }
    extend_strings(&mut cmd, agent_args.clone());
    cmd
}

fn build_agent_command(file: &Result<String, String>, agent_args: &Vec<String>, memory: bool) -> (r: Result<Vec<String>, String>)
    ensures
        match agent_command_spec(
            match file {
                Ok(t) => Ok(t@),
                Err(e) => Err(e@),
            },
            views(agent_args@),
            memory,
        ) {
            Ok(c) => r matches Ok(v) && views(v@) == c,
            Err(e) => r matches Err(m) && m@ == e,
        },
{
    let text = match file {
        Ok(t) => t,
        Err(e) => {
            return Err(e.clone());
        },
    };
    let cmd = match from_json_string_list(text.as_str()) {
        Ok(c) => c,
        Err(e) => {
            return Err(e);
        },
    };
    Ok(agent_command(cmd, agent_args, memory))
}

/// The volume strings of the exclusion mounts.
pub open spec fn exclusion_volumes(ms: Seq<MountView>, tmp: Seq<char>) -> Seq<Seq<char>> {
    ms.map_values(|m: MountView| match m {
        MountView::File(p) => "/dev/null:"@ + p + ":ro"@,
        MountView::Directory(p) => subdir_spec(tmp, p) + seq![':'] + p,
    })
}

/// The volume strings of the inclusion mounts.
pub open spec fn inclusion_volumes(ms: Seq<(Seq<char>, Seq<char>)>) -> Seq<Seq<char>> {
    ms.map_values(|m: (Seq<char>, Seq<char>)| m.0 + seq![':'] + m.1)
}

/// The file mounts of the settings: exclusions, then inclusions. The first exclusion
/// entry whose pattern could not be used is the error.
pub open spec fn file_volumes(ctx: ComposeContext, f: HostFacts) -> Result<Seq<Seq<char>>, Seq<char>> {
    match ctx.settings.files {
        None => Ok(Seq::empty()),
        Some(files) => {
            let excl = match files.exclude {
                Some(_) => match exclusions_spec(probe_views(f.exclusion_probes@)) {
                    Ok(x) => Ok(exclusion_volumes(x.1, ctx.tmp_dir@)),
                    Err(e) => Err(e),
                },
                None => Ok(Seq::empty()),
            };
            match excl {
                Err(e) => Err(e),
                Ok(ev) => Ok(ev + match files.inclusions {
                    Some(entries) => inclusion_volumes(
                        inclusions_spec(
                            pair_views(entries@),
                            f.inclusions_present@,
                            ctx.project_dir@,
                            ctx.sandbox_home@,
                            env_view(f.env@),
                            home_view(f.home),
                        ),
                    ),
                    None => Seq::empty(),
                }),
            }
        },
    }
}

fn file_volumes_of(ctx: &ComposeContext, f: &HostFacts) -> (r: Result<Vec<String>, String>)
    requires
        ctx.settings.files matches Some(files) ==> (files.inclusions matches Some(entries)
            ==> f.inclusions_present@.len() == entries@.len()),
    ensures
        match file_volumes(*ctx, *f) {
            Ok(v) => r matches Ok(x) && views(x@) == v,
            Err(e) => r matches Err(m) && m@ == e,
        },
{
    let mut out: Vec<String> = Vec::new();
    match &ctx.settings.files {
        None => Ok(out),
        Some(files) => {
            match &files.exclude {
                Some(_) => {
                    let mounts = match resolve_exclusions(f.exclusion_probes.as_slice()) {
                        Ok(m) => m,
                        Err(e) => {
                            return Err(e);
                        },
                    };
                    let mut i: usize = 0;
                    let ghost mv = mount_views(mounts@);
                    while i < mounts.len()
                        invariant
                            i <= mounts.len(),
                            mv == mount_views(mounts@),
                            views(out@) == exclusion_volumes(mv, ctx.tmp_dir@).take(i as int),
                        decreases mounts.len() - i,
                    {
                        let v = mounts[i].to_volume_mount(ctx.tmp_dir.as_str());
                        push_string(&mut out, v);
                        proof {
                            let ev = exclusion_volumes(mv, ctx.tmp_dir@);
                            assert(ev.take(i + 1) =~= ev.take(i as int).push(ev[i as int]));
                        }
                        i = i + 1;
                    }
                    proof {
                        assert(exclusion_volumes(mv, ctx.tmp_dir@).take(i as int) =~= exclusion_volumes(mv, ctx.tmp_dir@));
                    }
                },
                None => {
                    proof {
                        assert(views(out@) =~= Seq::<Seq<char>>::empty());
                    }
                },
            }
            let ghost before = views(out@);
            match &files.inclusions {
                Some(entries) => {
                    let home = match &f.home {
                        Some(h) => Some(h.as_str()),
                        None => None,
                    };
                    let mounts = resolve_inclusions(
                        entries.as_slice(),
                        ctx.project_dir.as_str(),
                        ctx.sandbox_home.as_str(),
                        f.env.as_slice(),
                        home,
                        f.inclusions_present.as_slice(),
                    );
                    let ghost iv = crate::path::inclusion_views(mounts@);
                    let mut i: usize = 0;
                    while i < mounts.len()
                        invariant
                            i <= mounts.len(),
                            iv == crate::path::inclusion_views(mounts@),
                            views(out@) == before + inclusion_volumes(iv).take(i as int),
                        decreases mounts.len() - i,
                    {
                        let v = mounts[i].to_volume_mount();
                        push_string(&mut out, v);
                        proof {
                            let ev = inclusion_volumes(iv);
                            assert(ev.take(i + 1) =~= ev.take(i as int).push(ev[i as int]));
                            assert(views(out@) =~= before + ev.take(i + 1));
                        }
                        i = i + 1;
                    }
                    proof {
                        assert(inclusion_volumes(iv).take(i as int) =~= inclusion_volumes(iv));
                    }
                },
                None => {
                    proof {
                        assert(before + Seq::<Seq<char>>::empty() =~= before);
                    }
                },
            }
            Ok(out)
        },
    }
}


/// Whether the settings hand the Docker socket to the sandbox.
pub open spec fn docker_passthrough(settings: Settings) -> bool {
    match settings.docker {
        Some(d) => d.passthrough == Some(true),
        None => false,
    }
}

/// Whether recall spans the whole space: on unless `memory.scope.crossProject` is false.
pub open spec fn cross_project_setting(settings: Settings) -> bool {
    match settings.memory {
        Some(m) => match m.scope {
            Some(sc) => match sc.cross_project {
                Some(b) => b,
                None => true,
            },
            None => true,
        },
        None => true,
    }
}

/// The workspace mount, when the workspace directory exists.
pub open spec fn workspace_volumes(ctx: ComposeContext, f: HostFacts) -> Seq<Seq<char>> {
    match ctx.settings.workspace {
        Some(w) => if f.workspace_is_dir {
            let p = host_path_spec(w.dir@, ctx.project_dir@, env_view(f.env@), home_view(f.home));
            seq![p + ":"@ + p + (if w.readwrite {
                Seq::empty()
            } else {
                ":ro"@
            })]
        } else {
            Seq::empty()
        },
        None => Seq::empty(),
    }
}

/// The persistent agent home, the shared apt cache and, when the settings ask for it,
/// the Docker socket.
pub open spec fn fixed_volumes(ctx: ComposeContext) -> Seq<Seq<char>> {
    seq!["sandseal-agent-home:"@ + ctx.sandbox_home@, "sandseal-apt-cache:/var/cache/apt"@] + (
    if docker_passthrough(ctx.settings) {
        seq!["/var/run/docker.sock:/var/run/docker.sock"@]
    } else {
        Seq::empty()
    })
}

/// The machine-wide settings (read-only) and the bundled skills (read-only), where present.
pub open spec fn host_file_volumes(ctx: ComposeContext, f: HostFacts) -> Seq<Seq<char>> {
    (if f.settings_file_present {
        seq![
            join_spec(
                match f.home {
                    Some(h) => h@,
                    None => Seq::empty(),
                },
                ".sandseal/settings.json"@,
            ) + ":"@ + ctx.sandbox_home@ + "/.sandseal/settings.json:ro"@,
        ]
    } else {
        Seq::empty()
    }) + (if f.skills_present {
        seq![join_spec(ctx.script_dir@, "agents/skills"@) + ":/opt/sandseal/skills:ro"@]
    } else {
        Seq::empty()
    })
}

/// With memory: the rendered agent configuration (when present) and this program as the
/// memory bridge, all read-only. Then the prestart scripts, where present.
pub open spec fn session_volumes(ctx: ComposeContext, f: HostFacts) -> Seq<Seq<char>> {
    let tmp = ctx.tmp_dir@;
    let has_memory = ctx.memory is Some;
    (if has_memory && f.memory_config_present {
        seq![
            join_spec(tmp, "memory/mcp.json"@) + ":"@ + crate::memory::MCP_CONFIG_PATH@ + ":ro"@,
            join_spec(tmp, "memory/settings.json"@) + ":"@ + crate::memory::SETTINGS_PATH@ + ":ro"@,
        ]
    } else {
        Seq::empty()
    }) + (match f.own_exe {
        Some(e) => if has_memory {
            seq![e@ + ":/usr/local/bin/sandseal:ro"@]
        } else {
            Seq::empty()
        },
        None => Seq::empty(),
    }) + (if f.prestart_present {
        seq![join_spec(tmp, "prestart-scripts"@) + ":/tmp/prestart-scripts:ro"@]
    } else {
        Seq::empty()
    })
}

/// The mounts that follow the file mounts.
pub open spec fn other_volumes(ctx: ComposeContext, f: HostFacts) -> Seq<Seq<char>> {
    workspace_volumes(ctx, f) + fixed_volumes(ctx) + host_file_volumes(ctx, f) + session_volumes(ctx, f)
}

/// Every volume of the override, in order: the project itself, the file mounts, then the
/// rest.
pub open spec fn volumes_spec(ctx: ComposeContext, f: HostFacts) -> Result<Seq<Seq<char>>, Seq<char>> {
    match file_volumes(ctx, f) {
        Err(e) => Err(e),
        Ok(fv) => Ok(seq![ctx.project_dir@ + ":"@ + ctx.project_dir@] + fv + other_volumes(ctx, f)),
    }
}

fn workspace_volumes_of(ctx: &ComposeContext, f: &HostFacts) -> (r: Vec<String>)
    ensures
        views(r@) == workspace_volumes(*ctx, *f),
{
    let mut out: Vec<String> = Vec::new();
    match &ctx.settings.workspace {
        Some(w) => {
            if f.workspace_is_dir {
                let home = match &f.home {
                    Some(h) => Some(h.as_str()),
                    None => None,
                };
                let p = resolve_host_path(w.dir.as_str(), ctx.project_dir.as_str(), f.env.as_slice(), home);
                let v = concat(p.as_str(), ":");
                let v = concat(v.as_str(), p.as_str());
                let v = if w.readwrite {
                    v
                } else {
                    concat(v.as_str(), ":ro")
                };
                proof {
                    if w.readwrite {
                        assert(v@ =~= p@ + ":"@ + p@ + Seq::<char>::empty());
                    }
                }
                push_string(&mut out, v);
                proof {
                    assert(views(out@) =~= workspace_volumes(*ctx, *f));
                }
            } else {
                proof {
                    assert(views(out@) =~= workspace_volumes(*ctx, *f));
                }
            }
        },
        None => {
            proof {
                assert(views(out@) =~= workspace_volumes(*ctx, *f));
            }
        },
    }
    out
}

fn fixed_volumes_of(ctx: &ComposeContext) -> (r: Vec<String>)
    ensures
        views(r@) == fixed_volumes(*ctx),
{
    let mut out: Vec<String> = Vec::new();
    push_string(&mut out, concat("sandseal-agent-home:", ctx.sandbox_home.as_str()));
    push_string(&mut out, "sandseal-apt-cache:/var/cache/apt".to_owned());
    let passthrough = match &ctx.settings.docker {
        Some(d) => match d.passthrough {
            Some(b) => b,
            None => false,
        },
        None => false,
    };
    if passthrough {
        push_string(&mut out, "/var/run/docker.sock:/var/run/docker.sock".to_owned());
    }
    proof {
        assert(views(out@) =~= fixed_volumes(*ctx));
    }
    out
}

fn host_file_volumes_of(ctx: &ComposeContext, f: &HostFacts) -> (r: Vec<String>)
    ensures
        views(r@) == host_file_volumes(*ctx, *f),
{
    let mut out: Vec<String> = Vec::new();
    if f.settings_file_present {
        let home = match &f.home {
            Some(h) => h.clone(),
            None => String::new(),
        };
        let p = join(home.as_str(), ".sandseal/settings.json");
        let v = concat(p.as_str(), ":");
        let v = concat(v.as_str(), ctx.sandbox_home.as_str());
        let v = concat(v.as_str(), "/.sandseal/settings.json:ro");
        push_string(&mut out, v);
    }
    let ghost o1 = views(out@);
    if f.skills_present {
        let p = join(ctx.script_dir.as_str(), "agents/skills");
        push_string(&mut out, concat(p.as_str(), ":/opt/sandseal/skills:ro"));
    }
    proof {
        assert(views(out@) =~= host_file_volumes(*ctx, *f));
    }
    out
}

fn session_volumes_of(ctx: &ComposeContext, f: &HostFacts) -> (r: Vec<String>)
    ensures
        views(r@) == session_volumes(*ctx, *f),
{
    let mut out: Vec<String> = Vec::new();
    let has_memory = match &ctx.memory {
        Some(_) => true,
        None => false,
    };
    if has_memory && f.memory_config_present {
        let p = crate::memory::host_mcp_config(ctx.tmp_dir.as_str());
        let v = concat(p.as_str(), ":");
        let v = concat(v.as_str(), crate::memory::MCP_CONFIG_PATH);
        push_string(&mut out, concat(v.as_str(), ":ro"));
        let p = crate::memory::host_settings(ctx.tmp_dir.as_str());
        let v = concat(p.as_str(), ":");
        let v = concat(v.as_str(), crate::memory::SETTINGS_PATH);
        push_string(&mut out, concat(v.as_str(), ":ro"));
    }
    let ghost o1 = views(out@);
    match &f.own_exe {
        Some(e) => {
            if has_memory {
                push_string(&mut out, concat(e.as_str(), ":/usr/local/bin/sandseal:ro"));
            }
        },
        None => {},
    }
    let ghost o2 = views(out@);
    if f.prestart_present {
        let p = join(ctx.tmp_dir.as_str(), "prestart-scripts");
        push_string(&mut out, concat(p.as_str(), ":/tmp/prestart-scripts:ro"));
    }
    proof {
        assert(views(out@) =~= session_volumes(*ctx, *f));
    }
    out
}

fn other_volumes_of(ctx: &ComposeContext, f: &HostFacts) -> (r: Vec<String>)
    ensures
        views(r@) == other_volumes(*ctx, *f),
{
    let mut out = workspace_volumes_of(ctx, f);
    extend_strings(&mut out, fixed_volumes_of(ctx));
    extend_strings(&mut out, host_file_volumes_of(ctx, f));
    extend_strings(&mut out, session_volumes_of(ctx, f));
    out
}

/// The settings' own variables, each expanded, set one after the other.
pub open spec fn env_fold(
    m: Seq<(Seq<char>, Seq<char>)>,
    entries: Seq<(Seq<char>, Seq<char>)>,
    env: Seq<(Seq<char>, Seq<char>)>,
) -> Seq<(Seq<char>, Seq<char>)>
    decreases entries.len(),
{
    if entries.len() == 0 {
        m
    } else {
        let r = env_fold(m, entries.drop_last(), env);
        assoc_insert(r, entries.last().0, expand_spec(entries.last().1, env))
    }
}

/// The container environment: the memory credential, its backend and scope when the
/// session has memory; the runtime package log; then the settings' own variables, which
/// may override any of these.
pub open spec fn environment_spec(ctx: ComposeContext, f: HostFacts) -> Seq<(Seq<char>, Seq<char>)> {
    let base = match ctx.memory {
        Some(ms) => assoc_insert(
            assoc_insert(
                assoc_insert(Seq::empty(), "SANDSEAL_MEMORY_TOKEN"@, ms.token@),
                "SANDSEAL_API_URL"@,
                ms.api_url@,
            ),
            "SANDSEAL_MEMORY_CROSS_PROJECT"@,
            if cross_project_setting(ctx.settings) {
                "1"@
            } else {
                "0"@
            },
        ),
        None => Seq::empty(),
    };
    let with_log = assoc_insert(
        base,
        "SANDSEAL_RUNTIME_PACKAGES"@,
        ctx.project_dir@ + "/.sandseal/.runtime-packages"@,
    );
    match ctx.settings.environment {
        Some(vars) => env_fold(with_log, pairs_view(vars@), env_view(f.env@)),
        None => with_log,
    }
}

fn environment_of(ctx: &ComposeContext, f: &HostFacts) -> (r: Vec<(String, String)>)
    ensures
        pairs_view(r@) == environment_spec(*ctx, *f),
{
    let mut env: Vec<(String, String)> = Vec::new();
    proof {
        assert(pairs_view(env@) =~= Seq::<(Seq<char>, Seq<char>)>::empty());
    }
    match &ctx.memory {
        Some(ms) => {
            env_insert(&mut env, "SANDSEAL_MEMORY_TOKEN".to_owned(), ms.token.clone());
            env_insert(&mut env, "SANDSEAL_API_URL".to_owned(), ms.api_url.clone());
            let cross = match &ctx.settings.memory {
                Some(m) => match m.cross_project() {
                    Some(b) => b,
                    None => true,
                },
                None => true,
            };
            let flag = if cross {
                "1".to_owned()
            } else {
                "0".to_owned()
            };
            env_insert(&mut env, "SANDSEAL_MEMORY_CROSS_PROJECT".to_owned(), flag);
        },
        None => {},
    }
    let log = concat(ctx.project_dir.as_str(), "/.sandseal/.runtime-packages");
    env_insert(&mut env, "SANDSEAL_RUNTIME_PACKAGES".to_owned(), log);
    match &ctx.settings.environment {
        Some(vars) => {
            let ghost start = pairs_view(env@);
            let ghost vv = pairs_view(vars@);
            let mut i: usize = 0;
            proof {
                assert(vv.take(0) =~= Seq::<(Seq<char>, Seq<char>)>::empty());
            }
            while i < vars.len()
                invariant
                    i <= vars.len(),
                    vv == pairs_view(vars@),
                    pairs_view(env@) == env_fold(start, vv.take(i as int), env_view(f.env@)),
                decreases vars.len() - i,
            {
                proof {
                    assert(vv.take(i + 1).drop_last() =~= vv.take(i as int));
                    assert(vv.take(i + 1).last() == (vars@[i as int].0@, vars@[i as int].1@));
                }
                let expanded = expand_env_vars(vars[i].1.as_str(), f.env.as_slice());
                env_insert(&mut env, vars[i].0.clone(), expanded);
                i = i + 1;
            }
            proof {
                assert(vv.take(i as int) =~= vv);
            }
        },
        None => {},
    }
    env
}

/// The compose labels naming the instance.
pub open spec fn labels_spec(ctx: ComposeContext) -> Seq<(Seq<char>, Seq<char>)> {
    seq![
        ("sandseal.project_name"@, ctx.project_name@),
        ("sandseal.project_dir"@, ctx.project_dir@),
        ("sandseal.instance_name"@, ctx.instance_name@),
    ]
}

/// Whether the settings put the sandbox on the host's network.
pub open spec fn host_network_spec(settings: Settings) -> bool {
    match settings.network {
        Some(n) => match n.mode {
            Some(m) => m@ == "host"@,
            None => false,
        },
        None => false,
    }
}

/// Each service host name with its target, the target's port dropped.
pub open spec fn extra_hosts_spec(settings: Settings) -> Seq<(Seq<char>, Seq<char>)> {
    match settings.network {
        Some(n) => match n.services {
            Some(sv) => pairs_view(sv@).map_values(
                |p: (Seq<char>, Seq<char>)| (p.0, split_spec(p.1, ':')[0]),
            ),
            None => Seq::empty(),
        },
        None => Seq::empty(),
    }
}

fn extra_hosts_of(settings: &Settings) -> (r: Vec<(String, String)>)
    ensures
        pairs_view(r@) == extra_hosts_spec(*settings),
{
    let mut out: Vec<(String, String)> = Vec::new();
    match &settings.network {
        Some(n) => match &n.services {
            Some(sv) => {
                let ghost want = extra_hosts_spec(*settings);
                let mut i: usize = 0;
                while i < sv.len()
                    invariant
                        i <= sv.len(),
                        want == pairs_view(sv@).map_values(
                            |p: (Seq<char>, Seq<char>)| (p.0, split_spec(p.1, ':')[0]),
                        ),
                        pairs_view(out@) == want.take(i as int),
                    decreases sv.len() - i,
                {
                    let parts = split_on(sv[i].1.as_str(), ':');
                    proof {
                        crate::text::lemma_split_nonempty(sv@[i as int].1@, ':');
                    }
                    let host = parts[0].clone();
                    let name = sv[i].0.clone();
                    let ghost hv = host@;
                    let ghost nv = name@;
                    out.push((name, host));
                    proof {
                        assert(want.take(i + 1) =~= want.take(i as int).push(want[i as int]));
                        assert(pairs_view(out@) =~= want.take(i + 1));
                    }
                    i = i + 1;
                }
                proof {
                    assert(want.take(i as int) =~= want);
                }
            },
            None => {},
        },
        None => {},
    }
    proof {
        if pairs_view(out@).len() == 0 {
            assert(pairs_view(out@) =~= Seq::<(Seq<char>, Seq<char>)>::empty());
        }
    }
    out
}

/// The override for an instance: its YAML, or the error of the first step that failed
/// (an exclusion pattern that could not be used, or an agent command that could not be
/// read).
pub open spec fn compose_spec(ctx: ComposeContext, f: HostFacts) -> Result<Seq<char>, Seq<char>> {
    match volumes_spec(ctx, f) {
        Err(e) => Err(e),
        Ok(vols) => {
            let command = if ctx.debug {
                Ok(seq!["bash"@])
            } else {
                agent_command_spec(
                    match f.agent_command_file {
                        Ok(t) => Ok(t@),
                        Err(e) => Err(e@),
                    },
                    views(ctx.agent_args@),
                    ctx.memory is Some,
                )
            };
            match command {
                Err(e) => Err(e),
                Ok(cmd) => Ok(
                    yaml_spec(
                        ctx.image@,
                        vols,
                        environment_spec(ctx, f),
                        labels_spec(ctx),
                        cmd,
                        host_network_spec(ctx.settings),
                        extra_hosts_spec(ctx.settings),
                        ctx.settings.container,
                    ),
                ),
            }
        },
    }
}

/// Generates the docker-compose override YAML for a sandbox instance.
pub fn generate_compose_override(ctx: &ComposeContext, facts: &HostFacts) -> (r: Result<String, String>)
    requires
        ctx.settings.files matches Some(files) ==> (files.inclusions matches Some(entries)
            ==> facts.inclusions_present@.len() == entries@.len()),
    ensures
        match compose_spec(*ctx, *facts) {
            Ok(y) => r matches Ok(x) && x@ == y,
            Err(e) => r matches Err(m) && m@ == e,
        },
{
    let mut volumes: Vec<String> = Vec::new();
    push_string(&mut volumes, {
        let v = concat(ctx.project_dir.as_str(), ":");
        concat(v.as_str(), ctx.project_dir.as_str())
    });
    let files = match file_volumes_of(ctx, facts) {
        Ok(v) => v,
        Err(e) => {
            return Err(e);
        },
    };
    extend_strings(&mut volumes, files);
    extend_strings(&mut volumes, other_volumes_of(ctx, facts));
    let environment = environment_of(ctx, facts);
    let mut labels: Vec<(String, String)> = Vec::new();
    labels.push(("sandseal.project_name".to_owned(), ctx.project_name.clone()));
    labels.push(("sandseal.project_dir".to_owned(), ctx.project_dir.clone()));
    labels.push(("sandseal.instance_name".to_owned(), ctx.instance_name.clone()));
    proof {
        assert(pairs_view(labels@) =~= labels_spec(*ctx));
    }
    let command = if ctx.debug {
        let mut c: Vec<String> = Vec::new();
        push_string(&mut c, "bash".to_owned());
        proof {
            assert(views(c@) =~= seq!["bash"@]);
        }
        c
    } else {
        let has_memory = match &ctx.memory {
            Some(_) => true,
            None => false,
        };
        match build_agent_command(&facts.agent_command_file, &ctx.agent_args, has_memory) {
            Ok(c) => c,
            Err(e) => {
                return Err(e);
            },
        }
    };
    let host_network = match &ctx.settings.network {
        Some(n) => match &n.mode {
            Some(m) => str_eq(m.as_str(), "host"),
            None => false,
        },
        None => false,
    };
    let extra_hosts = extra_hosts_of(&ctx.settings);
    proof {
        assert(views(volumes@) =~= seq![ctx.project_dir@ + ":"@ + ctx.project_dir@] + views(files@) + other_volumes(*ctx, *facts));
    }
    Ok(format_compose_yaml(ctx, &volumes, &environment, &labels, &command, host_network, &extra_hosts))
}

/// Law: a session without memory gets none of memory's mounts (only the prestart
/// scripts can follow the host files), and when its settings set no variables its
/// environment holds nothing but the runtime-packages log.
pub proof fn law_no_memory_no_memory_state(ctx: ComposeContext, f: HostFacts)
    requires
        ctx.memory is None,
    ensures
        session_volumes(ctx, f) == (if f.prestart_present {
            seq![join_spec(ctx.tmp_dir@, "prestart-scripts"@) + ":/tmp/prestart-scripts:ro"@]
        } else {
            Seq::<Seq<char>>::empty()
        }),
        ctx.settings.environment is None ==> environment_spec(ctx, f) == seq![
            ("SANDSEAL_RUNTIME_PACKAGES"@, ctx.project_dir@ + "/.sandseal/.runtime-packages"@),
        ],
{
    assert(session_volumes(ctx, f) =~= (if f.prestart_present {
        seq![join_spec(ctx.tmp_dir@, "prestart-scripts"@) + ":/tmp/prestart-scripts:ro"@]
    } else {
        Seq::<Seq<char>>::empty()
    }));
}

/// Law: a session with memory carries its credential, its backend and its recall scope,
/// in that order, ahead of the runtime-packages log, when its settings set no variables.
pub proof fn law_memory_session_reaches_the_container(ctx: ComposeContext, f: HostFacts)
    requires
        ctx.memory is Some,
        ctx.settings.environment is None,
    ensures
        environment_spec(ctx, f) == seq![
            ("SANDSEAL_MEMORY_TOKEN"@, ctx.memory->0.token@),
            ("SANDSEAL_API_URL"@, ctx.memory->0.api_url@),
            ("SANDSEAL_MEMORY_CROSS_PROJECT"@, if cross_project_setting(ctx.settings) { "1"@ } else { "0"@ }),
            ("SANDSEAL_RUNTIME_PACKAGES"@, ctx.project_dir@ + "/.sandseal/.runtime-packages"@),
        ],
{
    reveal_strlit("SANDSEAL_MEMORY_TOKEN");
    reveal_strlit("SANDSEAL_API_URL");
    reveal_strlit("SANDSEAL_MEMORY_CROSS_PROJECT");
    reveal_strlit("SANDSEAL_RUNTIME_PACKAGES");
    reveal_with_fuel(assoc_insert, 5);
    let ms = ctx.memory->0;
    let a = assoc_insert(Seq::empty(), "SANDSEAL_MEMORY_TOKEN"@, ms.token@);
    assert(a =~= seq![("SANDSEAL_MEMORY_TOKEN"@, ms.token@)]);
    let b = assoc_insert(a, "SANDSEAL_API_URL"@, ms.api_url@);
    assert(a.drop_first() =~= Seq::<(Seq<char>, Seq<char>)>::empty());
    assert("SANDSEAL_MEMORY_TOKEN"@ != "SANDSEAL_API_URL"@) by {
        assert("SANDSEAL_MEMORY_TOKEN"@.len() != "SANDSEAL_API_URL"@.len());
    }
    assert(b =~= seq![("SANDSEAL_MEMORY_TOKEN"@, ms.token@), ("SANDSEAL_API_URL"@, ms.api_url@)]);
    let x = if cross_project_setting(ctx.settings) { "1"@ } else { "0"@ };
    let c = assoc_insert(b, "SANDSEAL_MEMORY_CROSS_PROJECT"@, x);
    assert("SANDSEAL_MEMORY_TOKEN"@ != "SANDSEAL_MEMORY_CROSS_PROJECT"@) by {
        assert("SANDSEAL_MEMORY_TOKEN"@.len() != "SANDSEAL_MEMORY_CROSS_PROJECT"@.len());
    }
    assert("SANDSEAL_API_URL"@ != "SANDSEAL_MEMORY_CROSS_PROJECT"@) by {
        assert("SANDSEAL_API_URL"@.len() != "SANDSEAL_MEMORY_CROSS_PROJECT"@.len());
    }
    assert(b.drop_first() =~= seq![("SANDSEAL_API_URL"@, ms.api_url@)]);
    assert(b.drop_first().drop_first() =~= Seq::<(Seq<char>, Seq<char>)>::empty());
    assert(c =~= seq![
        ("SANDSEAL_MEMORY_TOKEN"@, ms.token@),
        ("SANDSEAL_API_URL"@, ms.api_url@),
        ("SANDSEAL_MEMORY_CROSS_PROJECT"@, x),
    ]);
    let k = "SANDSEAL_RUNTIME_PACKAGES"@;
    let v = ctx.project_dir@ + "/.sandseal/.runtime-packages"@;
    assert("SANDSEAL_MEMORY_TOKEN"@ != k) by {
        assert("SANDSEAL_MEMORY_TOKEN"@.len() != k.len());
    }
    assert("SANDSEAL_API_URL"@ != k) by {
        assert("SANDSEAL_API_URL"@.len() != k.len());
    }
    assert("SANDSEAL_MEMORY_CROSS_PROJECT"@ != k) by {
        assert("SANDSEAL_MEMORY_CROSS_PROJECT"@.len() != k.len());
    }
    assert(c.drop_first() =~= seq![("SANDSEAL_API_URL"@, ms.api_url@), ("SANDSEAL_MEMORY_CROSS_PROJECT"@, x)]);
    assert(c.drop_first().drop_first() =~= seq![("SANDSEAL_MEMORY_CROSS_PROJECT"@, x)]);
    assert(c.drop_first().drop_first().drop_first() =~= Seq::<(Seq<char>, Seq<char>)>::empty());
    assert(assoc_insert(c, k, v) =~= c.push((k, v)));
}

/// Law: the workspace is mounted read-only unless the settings ask for read-write. Where
/// the settings name a workspace whose directory exists, the override mounts the resolved
/// directory at the same path, and the mount ends in `:ro` exactly when `readwrite` is
/// off.
pub proof fn law_workspace_read_only_by_default(ctx: ComposeContext, f: HostFacts)
    requires
        ctx.settings.workspace is Some,
        f.workspace_is_dir,
        volumes_spec(ctx, f) is Ok,
    ensures
        ({
            let w = ctx.settings.workspace->Some_0;
            let p = host_path_spec(w.dir@, ctx.project_dir@, env_view(f.env@), home_view(f.home));
            let vols = volumes_spec(ctx, f)->Ok_0;
            &&& !w.readwrite ==> vols.contains(p + ":"@ + p + ":ro"@)
            &&& w.readwrite ==> vols.contains(p + ":"@ + p)
        }),
{
    let w = ctx.settings.workspace->Some_0;
    let p = host_path_spec(w.dir@, ctx.project_dir@, env_view(f.env@), home_view(f.home));
    let fv = file_volumes(ctx, f)->Ok_0;
    let vols = volumes_spec(ctx, f)->Ok_0;
    let k: int = 1 + fv.len() as int;
    let v = p + ":"@ + p + (if w.readwrite {
        Seq::empty()
    } else {
        ":ro"@
    });
    assert(workspace_volumes(ctx, f) == seq![v]);
    assert(other_volumes(ctx, f)[0] == v);
    assert(vols[k] == v);
    if w.readwrite {
        assert(v =~= p + ":"@ + p);
    }
}

} // verus!
