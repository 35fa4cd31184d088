//! The command line, as plain values: what each command takes.
use vstd::prelude::*;

verus! {

/// The backend used when none is given.
pub const DEFAULT_API_URL: &'static str = "https://sandseal.io";

/// The backend to talk to: the one given, else the default.
pub fn resolve_api_url(flag: Option<&str>) -> (r: &str)
    ensures
        r@ == match flag {
            Some(f) => f@,
            None => DEFAULT_API_URL@,
        },
{
    match flag {
        Some(f) => f,
        None => DEFAULT_API_URL,
    }
}

/// The whole command line.
pub struct Cli {
    pub command: Command,
    /// A bash shell instead of the agent.
    pub debug: bool,
}

pub enum Command {
    /// Start a sandbox for a project directory.
    Start(StartArgs),
    /// Build (or rebuild) the sandbox image without starting a container.
    Build(BuildArgs),
    /// Destroy the sandboxes of a project.
    Destroy(DestroyArgs),
    /// Show running sandbox instances.
    Status,
    /// Manage named configuration profiles.
    Config(ConfigArgs),
    /// Log in through the browser.
    Login(LoginArgs),
    /// Log out and remove stored credentials.
    Logout,
    /// Show the current login.
    Whoami,
    /// Connect to a remote session through the relay.
    Connect(ConnectArgs),
    /// Pair this device with a browser session.
    Pair(PairArgs),
    /// Run the agent and bridge its output to a remote session.
    Chat(ChatArgs),
    /// The memory bridge used inside the sandbox.
    Memory(MemoryArgs),
    /// Update to the latest release.
    Update(UpdateArgs),
}

pub struct UpdateArgs {
    /// A specific version instead of the latest.
    pub version: Option<String>,
}

pub struct MemoryArgs {
    pub command: MemoryCommand,
}

pub enum MemoryCommand {
    /// Notes relevant to a prompt (the prompt hook).
    Recall(MemoryRecallArgs),
    /// The memory tools as a local MCP server over stdio.
    Mcp(MemoryMcpArgs),
}

pub struct MemoryRecallArgs {
    /// Read the hook payload as JSON from stdin.
    pub stdin: bool,
    pub api_url: Option<String>,
}

pub struct MemoryMcpArgs {
    pub api_url: Option<String>,
}

pub struct StartArgs {
    /// Project directory.
    pub path: String,
    /// Force a rebuild of the image.
    pub rebuild: bool,
    /// Profile to apply instead of the active one.
    pub profile: Option<String>,
    /// Ignore the active profile for this run.
    pub no_profile: bool,
    /// Expose the sandbox as a remote session.
    pub remote: bool,
    pub api_url: Option<String>,
    /// Arguments passed through to the agent.
    pub agent_args: Vec<String>,
}

pub struct BuildArgs {
    pub path: String,
    pub profile: Option<String>,
    pub no_profile: bool,
}

pub struct ConfigArgs {
    pub command: ConfigCommand,
    /// Project directory the active profile applies to.
    pub path: String,
}

pub enum ConfigCommand {
    List,
    SetActive(ConfigSetArgs),
    Unset(ConfigScopeArgs),
    Show(ConfigNameArgs),
    Create(ConfigCreateArgs),
    Delete(ConfigDeleteArgs),
    Edit(ConfigNameArgs),
    Effective(ConfigEffectiveArgs),
}

pub struct ConfigSetArgs {
    pub name: String,
    /// For every project on this machine.
    pub global: bool,
}

pub struct ConfigScopeArgs {
    pub global: bool,
}

pub struct ConfigNameArgs {
    /// Defaults to the active profile.
    pub name: Option<String>,
}

pub struct ConfigCreateArgs {
    pub name: String,
    /// Copy an existing profile as the starting point.
    pub from: Option<String>,
    /// Make the new profile active for this project.
    pub activate: bool,
}

pub struct ConfigDeleteArgs {
    pub name: String,
}

pub struct ConfigEffectiveArgs {
    pub profile: Option<String>,
    pub no_profile: bool,
}

pub struct DestroyArgs {
    pub path: String,
    /// Destroy all sandboxes.
    pub all: bool,
}

pub struct LoginArgs {
    pub api_url: Option<String>,
}

pub struct ConnectArgs {
    pub path: String,
    pub api_url: Option<String>,
}

pub struct PairArgs {
    pub mode: PairMode,
    pub api_url: Option<String>,
}

#[derive(Clone, Copy, Debug, PartialEq, Eq, Structural)]
pub enum PairMode {
    /// A URL for the browser to scan.
    Qr,
    /// A password for manual entry.
    Password,
}

pub struct ChatArgs {
    pub path: String,
    /// Prompt to send to the agent.
    pub prompt: String,
    pub api_url: Option<String>,
}

} // verus!
