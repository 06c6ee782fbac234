//! The configuration, and what it means for agents and platforms. Secrets are
//! not part of it: it names the environment variables that hold them.

use vstd::prelude::*;
use vstd::string::*;

use crate::acp::AcpConfig;
use crate::claude;
use crate::claude::{ClaudeCodeConfig, PermissionMode};
use crate::cli_agent::CliAgentConfig;
use crate::http_agent::HttpAgentConfig;
use crate::registry::RegistryEntry;
use crate::text;
use crate::types;
use crate::types::SessionKey;

verus! {

/// The cap on live sessions where none is configured.
pub const DEFAULT_MAX_SESSIONS: usize = 64;

#[derive(Debug, PartialEq, Eq)]
pub struct BridgeSection {
    pub default_agent: String,
    pub default_platform: String,
    pub state_dir: String,
    /// The cap on live sessions; 0 is none.
    pub max_sessions: usize,
}

#[derive(Debug, PartialEq, Eq)]
pub struct AgentSection {
    pub binary: Option<String>,
    pub extra_args: Option<Vec<String>>,
    pub cwd: Option<String>,
    pub permission_mode: Option<String>,
    /// Whether permissions are skipped; they are, if nothing is said.
    pub skip_permissions: Option<bool>,
    pub include_partial_messages: Option<bool>,
    pub model: Option<String>,
    pub fallback_model: Option<String>,
    pub effort: Option<String>,
    pub append_system_prompt: Option<String>,
    /// The amount, as it is written on the command line.
    pub max_budget_usd: Option<String>,
    pub add_dirs: Option<Vec<String>>,
    pub allowed_tools: Option<Vec<String>>,
    pub disallowed_tools: Option<Vec<String>>,
    pub mcp_config_files: Option<Vec<String>>,
    /// Where each client has its own working directory.
    pub client_config_base_dir: Option<String>,
    /// What a new working directory is copied from.
    pub client_template_dir: Option<String>,
}

#[derive(Debug, PartialEq, Eq)]
pub struct MediaSection {
    /// `local-http` or `azure-blob`.
    pub kind: Option<String>,
    /// Where the local server listens.
    pub bind: Option<String>,
    /// Under which address the local server is reached from outside.
    pub public_base_url: Option<String>,
    /// The variable that holds the connection string.
    pub connection_string_env: Option<String>,
    pub container: Option<String>,
    /// How long an address stays valid.
    pub sas_expiry_secs: Option<u64>,
}

#[derive(Debug, PartialEq, Eq)]
pub struct LineSection {
    pub channel_secret_env: Option<String>,
    pub channel_token_env: Option<String>,
    pub webhook_bind: Option<String>,
    pub allowlist: Option<Vec<String>>,
    pub media: Option<MediaSection>,
}

#[derive(Debug, PartialEq, Eq)]
pub struct SlackSection {
    pub app_token_env: Option<String>,
    pub bot_token_env: Option<String>,
}

#[derive(Debug, PartialEq, Eq)]
pub struct PlatformsSection {
    pub line: Option<LineSection>,
    pub slack: Option<SlackSection>,
}

#[derive(Debug, PartialEq, Eq)]
pub struct ProviderSection {
    pub base_url: Option<String>,
    pub model: Option<String>,
}

pub struct AppConfig {
    /// The name of the agent that is run in stream-json mode. Its program has
    /// the same name, where no other is configured.
    pub main_agent: String,
    pub bridge: BridgeSection,
    pub agents: Vec<(String, AgentSection)>,
    pub platforms: PlatformsSection,
    pub providers: Vec<(String, ProviderSection)>,
}

// ── Paths ───────────────────────────────────────────────────────────────

/// A path below another; an absolute one stands for itself.
pub open spec fn path_below(dir: Seq<char>, p: Seq<char>) -> Seq<char> {
    if text::has_prefix(p, "/"@) {
        p
    } else {
        claude::path_in(dir, p)
    }
}

/// A path whose leading `~/` is the home directory, where that is known.
pub open spec fn expanded(p: Seq<char>, home: Option<Seq<char>>) -> Seq<char> {
    match home {
        Some(h) => if text::has_prefix(p, "~/"@) {
            path_below(h, p.skip(2))
        } else {
            p
        },
        None => p,
    }
}

/// A path whose leading `~/` is the home directory, where that is known.
pub fn expand_tilde(p: &str, home: &Option<String>) -> (r: String)
    ensures
        r@ == expanded(p@, text::opt_text(*home)),
{
    proof {
        reveal_strlit("~/");
    }
    match home {
        None => p.to_string(),
        Some(h) => match text::after_prefix(p, "~/") {
            None => p.to_string(),
            Some(rest) => if text::starts_with(rest.as_str(), "/") {
                rest
            } else {
                claude::join_path(h.as_str(), rest.as_str())
            },
        },
    }
}

pub open spec fn opt_expanded(p: Option<Seq<char>>, home: Option<Seq<char>>) -> Option<Seq<char>> {
    match p {
        Some(p) => Some(expanded(p, home)),
        None => None,
    }
}

fn expand_opt(p: &Option<String>, home: &Option<String>) -> (r: Option<String>)
    ensures
        text::opt_text(r) == opt_expanded(text::opt_text(*p), text::opt_text(*home)),
{
    match p {
        Some(p) => Some(expand_tilde(p.as_str(), home)),
        None => None,
    }
}

/// Where the bridge keeps its state, if nothing is configured.
pub open spec fn usual_state_dir(home: Option<Seq<char>>) -> Seq<char> {
    match home {
        Some(h) => claude::path_in(h, ".ai-agent-bridge"@),
        None => ".ai-agent-bridge"@,
    }
}

/// Where the bridge keeps its state, if nothing is configured.
pub fn default_state_dir(home: &Option<String>) -> (r: String)
    ensures
        r@ == usual_state_dir(text::opt_text(*home)),
{
    match home {
        Some(h) => claude::join_path(h.as_str(), ".ai-agent-bridge"),
        None => ".ai-agent-bridge".to_string(),
    }
}

impl BridgeSection {
    /// What holds if nothing is configured: `agent` is the one that is run.
    pub fn defaults(home: &Option<String>, agent: &str) -> (r: BridgeSection)
        ensures
            r.default_agent@ == agent@,
            r.default_platform@ == "stdio"@,
            r.state_dir@ == usual_state_dir(text::opt_text(*home)),
            r.max_sessions == DEFAULT_MAX_SESSIONS,
    {
        BridgeSection {
            default_agent: agent.to_string(),
            default_platform: "stdio".to_string(),
            state_dir: default_state_dir(home),
            max_sessions: DEFAULT_MAX_SESSIONS,
        }
    }
}

/// The database: in the directory of the clients, where they have one, or else
/// in that of the state.
pub open spec fn database_path(state_dir: Seq<char>, clients: Option<Seq<char>>) -> Seq<char> {
    let dir = match clients {
        Some(c) => c,
        None => state_dir,
    };
    claude::path_in(claude::path_in(dir, "db_data"@), "state.db"@)
}

// ── Sections ────────────────────────────────────────────────────────────

/// The section where nothing is set.
pub open spec fn empty_section() -> AgentSection {
    AgentSection {
        binary: None,
        extra_args: None,
        cwd: None,
        permission_mode: None,
        skip_permissions: None,
        include_partial_messages: None,
        model: None,
        fallback_model: None,
        effort: None,
        append_system_prompt: None,
        max_budget_usd: None,
        add_dirs: None,
        allowed_tools: None,
        disallowed_tools: None,
        mcp_config_files: None,
        client_config_base_dir: None,
        client_template_dir: None,
    }
}

impl Default for AgentSection {
    fn default() -> (r: AgentSection)
        ensures
            r == empty_section(),
    {
        AgentSection {
            binary: None,
            extra_args: None,
            cwd: None,
            permission_mode: None,
            skip_permissions: None,
            include_partial_messages: None,
            model: None,
            fallback_model: None,
            effort: None,
            append_system_prompt: None,
            max_budget_usd: None,
            add_dirs: None,
            allowed_tools: None,
            disallowed_tools: None,
            mcp_config_files: None,
            client_config_base_dir: None,
            client_template_dir: None,
        }
    }
}

/// The section of an agent; the empty one where it has none.
pub open spec fn section_of(v: Seq<(String, AgentSection)>, name: Seq<char>) -> AgentSection
    decreases v.len(),
{
    if v.len() == 0 {
        empty_section()
    } else if v[0].0@ == name {
        v[0].1
    } else {
        section_of(v.drop_first(), name)
    }
}

/// The address and the model of a provider.
pub open spec fn provider_for(v: Seq<(String, ProviderSection)>, name: Seq<char>) -> (
    Option<Seq<char>>,
    Option<Seq<char>>,
)
    decreases v.len(),
{
    if v.len() == 0 {
        (None, None)
    } else if v[0].0@ == name {
        (text::opt_text(v[0].1.base_url), text::opt_text(v[0].1.model))
    } else {
        provider_for(v.drop_first(), name)
    }
}

pub open spec fn list_or_none(v: Option<Vec<String>>) -> Seq<Seq<char>> {
    match v {
        Some(v) => text::texts(v@),
        None => Seq::empty(),
    }
}

fn list_of(v: &Option<Vec<String>>) -> (r: Vec<String>)
    ensures
        text::texts(r@) == list_or_none(*v),
{
    match v {
        Some(v) => text::copy_strings(v),
        None => {
            let none: Vec<String> = Vec::new();
            assert(text::texts(none@) =~= Seq::<Seq<char>>::empty());
            none
        },
    }
}

pub open spec fn text_or(t: Option<Seq<char>>, usual: Seq<char>) -> Seq<char> {
    match t {
        Some(t) => t,
        None => usual,
    }
}

fn or_text(t: &Option<String>, usual: &str) -> (r: String)
    ensures
        r@ == text_or(text::opt_text(*t), usual@),
{
    match t {
        Some(t) => t.clone(),
        None => usual.to_string(),
    }
}

pub open spec fn truth_or(b: Option<bool>, usual: bool) -> bool {
    match b {
        Some(b) => b,
        None => usual,
    }
}

fn or_truth(b: Option<bool>, usual: bool) -> (r: bool)
    ensures
        r == truth_or(b, usual),
{
    match b {
        Some(b) => b,
        None => usual,
    }
}

impl AppConfig {
    fn section(&self, name: &str) -> (r: Option<&AgentSection>)
        ensures
            section_of(self.agents@, name@) == match r {
                Some(a) => *a,
                None => empty_section(),
            },
    {
        let ghost all = self.agents@;
        let mut i: usize = 0;
        assert(all.skip(0) =~= all);
        while i < self.agents.len()
            invariant
                i <= self.agents@.len(),
                all == self.agents@,
                section_of(all, name@) == section_of(all.skip(i as int), name@),
            decreases self.agents@.len() - i,
        {
            assert(all.skip(i as int)[0] == all[i as int]);
            if text::same(self.agents[i].0.as_str(), name) {
                return Some(&self.agents[i].1);
            }
            assert(all.skip(i as int).drop_first() =~= all.skip(i + 1));
            i = i + 1;
        }
        None
    }

    fn provider(&self, name: &str) -> (r: (Option<String>, Option<String>))
        ensures
            (text::opt_text(r.0), text::opt_text(r.1)) == provider_for(self.providers@, name@),
    {
        let ghost all = self.providers@;
        let mut i: usize = 0;
        assert(all.skip(0) =~= all);
        while i < self.providers.len()
            invariant
                i <= self.providers@.len(),
                all == self.providers@,
                provider_for(all, name@) == provider_for(all.skip(i as int), name@),
            decreases self.providers@.len() - i,
        {
            assert(all.skip(i as int)[0] == all[i as int]);
            if text::same(self.providers[i].0.as_str(), name) {
                let p: &ProviderSection = &self.providers[i].1;
                return (types::copy_opt(&p.base_url), types::copy_opt(&p.model));
            }
            assert(all.skip(i as int).drop_first() =~= all.skip(i + 1));
            i = i + 1;
        }
        (None, None)
    }
}

// ── Agents ──────────────────────────────────────────────────────────────

/// How an agent is run.
#[derive(Debug, PartialEq, Eq)]
pub enum AgentPlan {
    Claude(ClaudeCodeConfig),
    Cli { name: String, cfg: CliAgentConfig },
    Http(HttpAgentConfig),
    Acp(AcpConfig),
}

/// The permission mode of a name; anything unknown asks.
pub open spec fn mode_of(name: Option<Seq<char>>) -> PermissionMode {
    if name == Some("acceptEdits"@) {
        PermissionMode::AcceptEdits
    } else if name == Some("bypassPermissions"@) {
        PermissionMode::BypassPermissions
    } else {
        PermissionMode::Ask
    }
}

fn permission_mode(name: &Option<String>) -> (r: PermissionMode)
    ensures
        r == mode_of(text::opt_text(*name)),
{
    match name {
        Some(n) => if text::same(n.as_str(), "acceptEdits") {
            PermissionMode::AcceptEdits
        } else if text::same(n.as_str(), "bypassPermissions") {
            PermissionMode::BypassPermissions
        } else {
            PermissionMode::Ask
        },
        None => PermissionMode::Ask,
    }
}

/// How the agent in stream-json mode is started, by its name and its section.
pub open spec fn claude_view(
    agent: Seq<char>,
    a: AgentSection,
    home: Option<Seq<char>>,
) -> claude::ClaudeView {
    claude::ClaudeView {
        binary: text_or(text::opt_text(a.binary), agent),
        extra_args: list_or_none(a.extra_args),
        cwd: opt_expanded(text::opt_text(a.cwd), home),
        permission_mode: mode_of(text::opt_text(a.permission_mode)),
        skip_permissions: truth_or(a.skip_permissions, true),
        allowed_tools: list_or_none(a.allowed_tools),
        disallowed_tools: list_or_none(a.disallowed_tools),
        max_budget_usd: text::opt_text(a.max_budget_usd),
        include_partial_messages: truth_or(a.include_partial_messages, true),
        model: text::opt_text(a.model),
        fallback_model: text::opt_text(a.fallback_model),
        effort: text::opt_text(a.effort),
        add_dirs: list_or_none(a.add_dirs),
        append_system_prompt: text::opt_text(a.append_system_prompt),
        mcp_config_files: list_or_none(a.mcp_config_files),
        session_id: None,
        inline_image_max_bytes: 262_144,
        client_config_base_dir: opt_expanded(text::opt_text(a.client_config_base_dir), home),
        client_template_dir: opt_expanded(text::opt_text(a.client_template_dir), home),
    }
}

/// How the agent in stream-json mode is started, by its name and its section.
pub fn claude_config(agent: &str, a: &AgentSection, home: &Option<String>) -> (r: ClaudeCodeConfig)
    ensures
        r@ == claude_view(agent@, *a, text::opt_text(*home)),
{
    ClaudeCodeConfig {
        binary: or_text(&a.binary, agent),
        extra_args: list_of(&a.extra_args),
        cwd: expand_opt(&a.cwd, home),
        permission_mode: permission_mode(&a.permission_mode),
        skip_permissions: or_truth(a.skip_permissions, true),
        allowed_tools: list_of(&a.allowed_tools),
        disallowed_tools: list_of(&a.disallowed_tools),
        max_budget_usd: types::copy_opt(&a.max_budget_usd),
        include_partial_messages: or_truth(a.include_partial_messages, true),
        model: types::copy_opt(&a.model),
        fallback_model: types::copy_opt(&a.fallback_model),
        effort: types::copy_opt(&a.effort),
        add_dirs: list_of(&a.add_dirs),
        append_system_prompt: types::copy_opt(&a.append_system_prompt),
        mcp_config_files: list_of(&a.mcp_config_files),
        session_id: None,
        inline_image_max_bytes: 262_144,
        client_config_base_dir: expand_opt(&a.client_config_base_dir, home),
        client_template_dir: expand_opt(&a.client_template_dir, home),
    }
}

/// An agent about which nothing is said runs as it does by default.
pub proof fn empty_section_is_the_default(agent: Seq<char>, home: Option<Seq<char>>)
    ensures
        claude_view(agent, empty_section(), home) == claude::default_config(agent),
{
}

/// The arguments of the `copilot` agent, if nothing is configured: the one
/// subcommand that answers without a dialogue.
pub open spec fn copilot_args(a: AgentSection) -> Seq<Seq<char>> {
    if a.extra_args is None {
        seq!["copilot"@, "explain"@]
    } else {
        list_or_none(a.extra_args)
    }
}

/// What a name means as an agent, by that of the main one, the section `a` that
/// it has and the provider `p`.
pub open spec fn plan_is(
    main_agent: Seq<char>,
    name: Seq<char>,
    a: AgentSection,
    p: (Option<Seq<char>>, Option<Seq<char>>),
    home: Option<Seq<char>>,
    api_key: Seq<char>,
    r: Result<AgentPlan, String>,
) -> bool {
    if name == main_agent {
        r matches Ok(AgentPlan::Claude(c)) && c@ == claude_view(name, a, home)
    } else if name == "copilot"@ {
        r matches Ok(AgentPlan::Cli { name: n, cfg }) && n@ == "copilot"@ && cfg.binary@ == text_or(
            text::opt_text(a.binary),
            "gh"@,
        ) && text::texts(cfg.args@) == copilot_args(a) && !cfg.supports_resume
    } else if name == "shell"@ {
        match a.binary {
            Some(b) => r matches Ok(AgentPlan::Cli { name: n, cfg }) && n@ == "shell"@
                && cfg.binary@ == b@ && text::texts(cfg.args@) == list_or_none(a.extra_args)
                && !cfg.supports_resume,
            None => r matches Err(e) && e@ == "agents.shell.binary required for --agent shell"@,
        }
    } else if name == "http"@ || name == "openai"@ {
        r matches Ok(AgentPlan::Http(h)) && h.base_url@ == text_or(
            p.0,
            "https://api.openai.com/v1"@,
        ) && h.model@ == text_or(p.1, "gpt-4o-mini"@) && h.api_key@ == api_key && h.agent_name@
            == "openai"@ && h.stream
    } else if name == "acp"@ {
        match a.binary {
            Some(b) => r matches Ok(AgentPlan::Acp(c)) && c.binary@ == b@ && text::texts(c.args@)
                == list_or_none(a.extra_args) && c.cwd == a.cwd,
            None => r matches Err(e) && e@ == "agents.acp.binary required for --agent acp"@,
        }
    } else {
        r matches Err(e) && e@ == "agent `"@ + name + "` not enabled in this build"@
    }
}

fn shell_config(a: &AgentSection) -> (r: Option<CliAgentConfig>)
    ensures
        match (r, a.binary) {
            (Some(c), Some(b)) => c.binary@ == b@ && text::texts(c.args@) == list_or_none(
                a.extra_args,
            ) && !c.supports_resume,
            (None, None) => true,
            _ => false,
        },
{
    match &a.binary {
        Some(b) => Some(
            CliAgentConfig {
                binary: b.clone(),
                args: list_of(&a.extra_args),
                supports_resume: false,
            },
        ),
        None => None,
    }
}

fn copilot_config(a: &AgentSection) -> (r: CliAgentConfig)
    ensures
        r.binary@ == text_or(text::opt_text(a.binary), "gh"@),
        text::texts(r.args@) == copilot_args(*a),
        !r.supports_resume,
{
    let args: Vec<String> = match &a.extra_args {
        Some(v) => text::copy_strings(v),
        None => {
            let mut v: Vec<String> = Vec::new();
            v.push("copilot".to_string());
            v.push("explain".to_string());
            assert(text::texts(v@) =~= seq!["copilot"@, "explain"@]);
            v
        },
    };
    CliAgentConfig { binary: or_text(&a.binary, "gh"), args, supports_resume: false }
}

impl AppConfig {
    /// How the agent of a name is run. `home` is the home directory, `api_key`
    /// the key for the HTTP agent.
    pub fn build_agent(&self, name: &str, home: &Option<String>, api_key: &str) -> (r: Result<
        AgentPlan,
        String,
    >)
        ensures
            plan_is(
                self.main_agent@,
                name@,
                section_of(self.agents@, name@),
                provider_for(self.providers@, "openai"@),
                text::opt_text(*home),
                api_key@,
                r,
            ),
    {
        let none: AgentSection = AgentSection::default();
        let a: &AgentSection = match self.section(name) {
            Some(a) => a,
            None => &none,
        };
        proof {
            reveal_strlit("copilot");
            reveal_strlit("shell");
            reveal_strlit("http");
            reveal_strlit("openai");
            reveal_strlit("acp");
        }
        if text::same(name, self.main_agent.as_str()) {
            Ok(AgentPlan::Claude(claude_config(name, a, home)))
        } else if text::same(name, "copilot") {
            Ok(AgentPlan::Cli { name: "copilot".to_string(), cfg: copilot_config(a) })
        } else if text::same(name, "shell") {
            match shell_config(a) {
                Some(cfg) => Ok(AgentPlan::Cli { name: "shell".to_string(), cfg }),
                None => Err("agents.shell.binary required for --agent shell".to_string()),
            }
        } else if text::same(name, "http") || text::same(name, "openai") {
            let p: (Option<String>, Option<String>) = self.provider("openai");
            Ok(
                AgentPlan::Http(
                    HttpAgentConfig {
                        base_url: or_text(&p.0, "https://api.openai.com/v1"),
                        model: or_text(&p.1, "gpt-4o-mini"),
                        api_key: api_key.to_string(),
                        agent_name: "openai".to_string(),
                        stream: true,
                    },
                ),
            )
        } else if text::same(name, "acp") {
            match &a.binary {
                Some(b) => Ok(
                    AgentPlan::Acp(
                        AcpConfig {
                            binary: b.clone(),
                            args: list_of(&a.extra_args),
                            cwd: types::copy_opt(&a.cwd),
                        },
                    ),
                ),
                None => Err("agents.acp.binary required for --agent acp".to_string()),
            }
        } else {
            Err(text::concat3("agent `", name, "` not enabled in this build"))
        }
    }

    /// Where the database is: in the directory of the clients of the main
    /// agent, where they have one, or else in that of the state.
    pub fn state_db_path(&self, home: &Option<String>) -> (r: String)
        ensures
            r@ == database_path(
                expanded(self.bridge.state_dir@, text::opt_text(*home)),
                opt_expanded(
                    text::opt_text(section_of(self.agents@, self.main_agent@).client_config_base_dir),
                    text::opt_text(*home),
                ),
            ),
    {
        let clients: Option<String> = match self.section(self.main_agent.as_str()) {
            Some(a) => expand_opt(&a.client_config_base_dir, home),
            None => None,
        };
        let dir: String = match clients {
            Some(d) => d,
            None => expand_tilde(self.bridge.state_dir.as_str(), home),
        };
        let data: String = claude::join_path(dir.as_str(), "db_data");
        claude::join_path(data.as_str(), "state.db")
    }

    /// A file or directory of the bridge's own, such as `daemon.lock` or `logs`.
    pub fn state_path(&self, name: &str, home: &Option<String>) -> (r: String)
        ensures
            r@ == claude::path_in(
                expanded(self.bridge.state_dir@, text::opt_text(*home)),
                name@,
            ),
    {
        let dir: String = expand_tilde(self.bridge.state_dir.as_str(), home);
        claude::join_path(dir.as_str(), name)
    }
}

// ── Platforms ───────────────────────────────────────────────────────────

/// How files are published.
#[derive(Debug, PartialEq, Eq)]
pub enum MediaPlan {
    Nothing,
    LocalHttp { bind: String, public_base_url: Option<String> },
    AzureBlob { connection_env: String, container: String, expiry_secs: u64 },
}

/// How a platform is run. Secrets are given as the variables that hold them.
#[derive(Debug, PartialEq, Eq)]
pub enum PlatformPlan {
    Stdio,
    Line {
        secret_env: String,
        token_env: String,
        bind: String,
        allowlist: Vec<String>,
        media: MediaPlan,
    },
    Slack { app_env: String, bot_env: String },
    Telegram { bot_env: String },
    Discord { bot_env: String },
}

/// How files are published, by a section.
pub open spec fn media_is(m: Option<MediaSection>, r: MediaPlan) -> bool {
    match m {
        None => r == MediaPlan::Nothing,
        Some(m) => if text::opt_text(m.kind) == Some("local-http"@) {
            r matches MediaPlan::LocalHttp { bind, public_base_url } && bind@ == text_or(
                text::opt_text(m.bind),
                "0.0.0.0:8081"@,
            ) && text::opt_text(public_base_url) == text::opt_text(m.public_base_url)
        } else if text::opt_text(m.kind) == Some("azure-blob"@) {
            r matches MediaPlan::AzureBlob { connection_env, container, expiry_secs }
                && connection_env@ == text_or(
                text::opt_text(m.connection_string_env),
                "AZURE_STORAGE_CONNECTION_STRING"@,
            ) && container@ == text_or(text::opt_text(m.container), "aab-media"@) && expiry_secs
                == match m.sas_expiry_secs {
                Some(s) => s,
                None => 3600,
            }
        } else {
            r == MediaPlan::Nothing
        },
    }
}

fn media_plan(m: &Option<MediaSection>) -> (r: MediaPlan)
    ensures
        media_is(*m, r),
{
    let m: &MediaSection = match m {
        Some(m) => m,
        None => {
            return MediaPlan::Nothing;
        },
    };
    proof {
        reveal_strlit("local-http");
        reveal_strlit("azure-blob");
        assert("local-http"@[0] != "azure-blob"@[0]);
    }
    match &m.kind {
        None => MediaPlan::Nothing,
        Some(kind) => if text::same(kind.as_str(), "local-http") {
            MediaPlan::LocalHttp {
                bind: or_text(&m.bind, "0.0.0.0:8081"),
                public_base_url: types::copy_opt(&m.public_base_url),
            }
        } else if text::same(kind.as_str(), "azure-blob") {
            MediaPlan::AzureBlob {
                connection_env: or_text(
                    &m.connection_string_env,
                    "AZURE_STORAGE_CONNECTION_STRING",
                ),
                container: or_text(&m.container, "aab-media"),
                expiry_secs: match m.sas_expiry_secs {
                    Some(s) => s,
                    None => 3600,
                },
            }
        } else {
            MediaPlan::Nothing
        },
    }
}

/// The address below which a local server publishes, which has to be given.
pub fn required_base_url(public_base_url: &Option<String>) -> (r: Result<String, String>)
    ensures
        match *public_base_url {
            Some(u) => r matches Ok(v) && v@ == u@,
            None => r matches Err(e) && e@ == "media.public_base_url required"@,
        },
{
    match public_base_url {
        Some(u) => Ok(u.clone()),
        None => Err("media.public_base_url required".to_string()),
    }
}

/// The variables, the address and the users of the LINE platform.
pub open spec fn line_is(l: Option<LineSection>, r: PlatformPlan) -> bool {
    let secret = match l {
        Some(l) => text::opt_text(l.channel_secret_env),
        None => None,
    };
    let token = match l {
        Some(l) => text::opt_text(l.channel_token_env),
        None => None,
    };
    let address = match l {
        Some(l) => text::opt_text(l.webhook_bind),
        None => None,
    };
    let users = match l {
        Some(l) => list_or_none(l.allowlist),
        None => Seq::empty(),
    };
    let section = match l {
        Some(l) => l.media,
        None => None,
    };
    r matches PlatformPlan::Line { secret_env, token_env, bind, allowlist, media } && secret_env@
        == text_or(secret, "LINE_CHANNEL_SECRET"@) && token_env@ == text_or(
        token,
        "LINE_CHANNEL_TOKEN"@,
    ) && bind@ == text_or(address, "0.0.0.0:8080"@) && text::texts(allowlist@) == users
        && media_is(section, media)
}

/// What a name means as a platform.
pub open spec fn platform_is(
    name: Seq<char>,
    p: PlatformsSection,
    r: Result<PlatformPlan, String>,
) -> bool {
    if name == "stdio"@ {
        r == Ok::<PlatformPlan, String>(PlatformPlan::Stdio)
    } else if name == "line"@ {
        r matches Ok(plan) && line_is(p.line, plan)
    } else if name == "slack"@ {
        r matches Ok(PlatformPlan::Slack { app_env, bot_env }) && app_env@ == text_or(
            match p.slack {
                Some(s) => text::opt_text(s.app_token_env),
                None => None,
            },
            "SLACK_APP_TOKEN"@,
        ) && bot_env@ == text_or(
            match p.slack {
                Some(s) => text::opt_text(s.bot_token_env),
                None => None,
            },
            "SLACK_BOT_TOKEN"@,
        )
    } else if name == "telegram"@ {
        r matches Ok(PlatformPlan::Telegram { bot_env }) && bot_env@ == "TELEGRAM_BOT_TOKEN"@
    } else if name == "discord"@ {
        r matches Ok(PlatformPlan::Discord { bot_env }) && bot_env@ == "DISCORD_BOT_TOKEN"@
    } else {
        r matches Err(e) && e@ == "platform `"@ + name + "` not enabled in this build"@
    }
}

fn line_plan(l: &Option<LineSection>) -> (r: PlatformPlan)
    ensures
        line_is(*l, r),
{
    match l {
        Some(l) => PlatformPlan::Line {
            secret_env: or_text(&l.channel_secret_env, "LINE_CHANNEL_SECRET"),
            token_env: or_text(&l.channel_token_env, "LINE_CHANNEL_TOKEN"),
            bind: or_text(&l.webhook_bind, "0.0.0.0:8080"),
            allowlist: list_of(&l.allowlist),
            media: media_plan(&l.media),
        },
        None => PlatformPlan::Line {
            secret_env: "LINE_CHANNEL_SECRET".to_string(),
            token_env: "LINE_CHANNEL_TOKEN".to_string(),
            bind: "0.0.0.0:8080".to_string(),
            allowlist: list_of(&None),
            media: MediaPlan::Nothing,
        },
    }
}

impl AppConfig {
    /// How the platform of a name is run.
    pub fn build_platform(&self, name: &str) -> (r: Result<PlatformPlan, String>)
        ensures
            platform_is(name@, self.platforms, r),
    {
        proof {
            reveal_strlit("stdio");
            reveal_strlit("line");
            reveal_strlit("slack");
            reveal_strlit("telegram");
            reveal_strlit("discord");
            assert("stdio"@[1] != "slack"@[1]);
        }
        if text::same(name, "stdio") {
            Ok(PlatformPlan::Stdio)
        } else if text::same(name, "line") {
            Ok(line_plan(&self.platforms.line))
        } else if text::same(name, "slack") {
            match &self.platforms.slack {
                Some(s) => Ok(
                    PlatformPlan::Slack {
                        app_env: or_text(&s.app_token_env, "SLACK_APP_TOKEN"),
                        bot_env: or_text(&s.bot_token_env, "SLACK_BOT_TOKEN"),
                    },
                ),
                None => Ok(
                    PlatformPlan::Slack {
                        app_env: "SLACK_APP_TOKEN".to_string(),
                        bot_env: "SLACK_BOT_TOKEN".to_string(),
                    },
                ),
            }
        } else if text::same(name, "telegram") {
            Ok(PlatformPlan::Telegram { bot_env: "TELEGRAM_BOT_TOKEN".to_string() })
        } else if text::same(name, "discord") {
            Ok(PlatformPlan::Discord { bot_env: "DISCORD_BOT_TOKEN".to_string() })
        } else {
            Err(text::concat3("platform `", name, "` not enabled in this build"))
        }
    }
}

// ── Reports ─────────────────────────────────────────────────────────────

/// What is said of a variable that is not set.
pub fn missing_env(name: &str) -> (r: String)
    ensures
        r@ == "env var `"@ + name@ + "` not set"@,
{
    text::concat3("env var `", name, "` not set")
}

/// The line of a session in `aab session list`.
pub fn session_line(key: &SessionKey, e: &RegistryEntry) -> (r: String)
    ensures
        r@ == key@ + "  agent="@ + e.agent@ + "  active="@ + text_or(
            text::opt_text(e.active_session_id),
            "-"@,
        ) + "  past="@ + text::decimal(e.past_agent_session_ids@.len()),
{
    let a: String = text::concat3(key.0.as_str(), "  agent=", e.agent.as_str());
    let active: String = or_text(&e.active_session_id, "-");
    let b: String = text::concat3(a.as_str(), "  active=", active.as_str());
    let n: String = text::decimal_text(e.past_agent_session_ids.len() as u64);
    text::concat3(b.as_str(), "  past=", n.as_str())
}

// ── Laws ────────────────────────────────────────────────────────────────

/// A path that starts with `~/` lies in the home directory; any other is what it is,
/// and so is every path where there is no home.
pub proof fn tilde_is_the_home_directory(home: Seq<char>, rest: Seq<char>, p: Seq<char>)
    requires
        home.len() > 0,
        home.last() != '/',
        rest.len() > 0,
        rest[0] != '/',
        p.len() > 0,
        p[0] != '~',
    ensures
        expanded("~/"@ + rest, Some(home)) == home + "/"@ + rest,
        expanded("~/"@ + rest, None) == "~/"@ + rest,
        expanded(p, Some(home)) == p,
        expanded(p, None) == p,
        opt_expanded(Some(p), Some(home)) == Some(p),
        opt_expanded(None, Some(home)) is None,
{
    reveal_strlit("~/");
    reveal_strlit("/");
    let t = "~/"@ + rest;
    assert(t.subrange(0, 2) =~= "~/"@);
    assert(t.skip(2) =~= rest);
    assert(rest.subrange(0, 1)[0] == rest[0]);
    assert(!text::has_prefix(rest, "/"@)) by {
        assert("/"@[0] == '/');
    }
    assert(!text::has_prefix(p, "~/"@)) by {
        if p.len() >= 2 {
            assert(p.subrange(0, 2)[0] == p[0]);
            assert("~/"@[0] == '~');
        }
    }
}

/// The state lies in its own directory, the database in the clients' directory where
/// there is one.
pub proof fn state_lies_in_its_directory(home: Seq<char>, dir: Seq<char>, clients: Seq<char>)
    requires
        home.len() > 0,
        home.last() != '/',
        dir.len() > 0,
        dir.last() != '/',
        clients.len() > 0,
        clients.last() != '/',
    ensures
        usual_state_dir(Some(home)) == home + "/"@ + ".ai-agent-bridge"@,
        usual_state_dir(None) == ".ai-agent-bridge"@,
        database_path(dir, None) == dir + "/"@ + "db_data"@ + "/"@ + "state.db"@,
        database_path(dir, Some(clients)) == clients + "/"@ + "db_data"@ + "/"@ + "state.db"@,
{
    reveal_strlit("db_data");
    assert("db_data"@.len() == 7);
    assert("db_data"@[6] == 'a');
    assert((dir + "/"@ + "db_data"@).last() == 'a');
    assert((clients + "/"@ + "db_data"@).last() == 'a');
}

/// Each setting of the agent comes from the option of its name.
pub proof fn settings_come_from_their_options(
    agent: Seq<char>,
    a: AgentSection,
    home: Option<Seq<char>>,
    b: bool,
)
    ensures
        ({
            let c = claude_view(agent, a, home);
            &&& c.model == text::opt_text(a.model)
            &&& c.fallback_model == text::opt_text(a.fallback_model)
            &&& c.effort == text::opt_text(a.effort)
            &&& c.append_system_prompt == text::opt_text(a.append_system_prompt)
            &&& c.max_budget_usd == text::opt_text(a.max_budget_usd)
            &&& a.binary is None ==> c.binary == agent
            &&& a.binary is Some ==> c.binary == a.binary->Some_0@
            &&& a.skip_permissions is None ==> c.skip_permissions
            &&& a.skip_permissions == Some(b) ==> c.skip_permissions == b
            &&& a.include_partial_messages is None ==> c.include_partial_messages
            &&& a.include_partial_messages == Some(b) ==> c.include_partial_messages == b
            &&& a.extra_args is Some ==> c.extra_args == text::texts(a.extra_args->Some_0@)
            &&& a.extra_args is None ==> c.extra_args.len() == 0
            &&& a.add_dirs is Some ==> c.add_dirs == text::texts(a.add_dirs->Some_0@)
            &&& a.add_dirs is None ==> c.add_dirs.len() == 0
            &&& a.allowed_tools is Some ==> c.allowed_tools == text::texts(a.allowed_tools->Some_0@)
            &&& a.allowed_tools is None ==> c.allowed_tools.len() == 0
            &&& a.disallowed_tools is Some ==> c.disallowed_tools == text::texts(
                a.disallowed_tools->Some_0@,
            )
            &&& a.disallowed_tools is None ==> c.disallowed_tools.len() == 0
            &&& a.mcp_config_files is Some ==> c.mcp_config_files == text::texts(
                a.mcp_config_files->Some_0@,
            )
            &&& a.mcp_config_files is None ==> c.mcp_config_files.len() == 0
            &&& a.cwd is Some ==> c.cwd == Some(expanded(a.cwd->Some_0@, home))
            &&& a.cwd is None ==> c.cwd is None
            &&& a.client_config_base_dir is Some ==> c.client_config_base_dir == Some(
                expanded(a.client_config_base_dir->Some_0@, home),
            )
            &&& a.client_config_base_dir is None ==> c.client_config_base_dir is None
            &&& a.client_template_dir is Some ==> c.client_template_dir == Some(
                expanded(a.client_template_dir->Some_0@, home),
            )
            &&& a.client_template_dir is None ==> c.client_template_dir is None
            &&& c.session_id is None
        }),
        mode_of(Some("acceptEdits"@)) == PermissionMode::AcceptEdits,
        mode_of(Some("bypassPermissions"@)) == PermissionMode::BypassPermissions,
        mode_of(None) == PermissionMode::Ask,
{
    reveal_strlit("acceptEdits");
    reveal_strlit("bypassPermissions");
    assert("acceptEdits"@.len() == 11 && "bypassPermissions"@.len() == 17);
}

/// The section of an agent is the first of its name, and an empty one where there is
/// none.
pub proof fn sections_are_found_by_name(v: Seq<(String, AgentSection)>, i: int, name: Seq<char>)
    ensures
        0 <= i < v.len() && (forall|k: int| 0 <= k < i ==> (#[trigger] v[k]).0@ != v[i].0@)
            ==> section_of(v, v[i].0@) == v[i].1,
        (forall|k: int| 0 <= k < v.len() ==> (#[trigger] v[k]).0@ != name) ==> section_of(v, name)
            == empty_section(),
    decreases v.len(),
{
    if v.len() > 0 {
        let t = v.drop_first();
        sections_are_found_by_name(t, i - 1, name);
        if 0 < i < v.len() && (forall|k: int| 0 <= k < i ==> (#[trigger] v[k]).0@ != v[i].0@) {
            assert(v[0].0@ != v[i].0@);
            assert(t[i - 1] == v[i]);
            assert forall|k: int| 0 <= k < i - 1 implies (#[trigger] t[k]).0@ != t[i - 1].0@ by {
                assert(t[k] == v[k + 1]);
            }
        }
        if forall|k: int| 0 <= k < v.len() ==> (#[trigger] v[k]).0@ != name {
            assert(v[0].0@ != name);
            assert forall|k: int| 0 <= k < t.len() implies (#[trigger] t[k]).0@ != name by {
                assert(t[k] == v[k + 1]);
            }
        }
    }
}

/// A provider is the first of its name.
pub proof fn providers_are_found_by_name(v: Seq<(String, ProviderSection)>, i: int)
    requires
        0 <= i < v.len(),
        forall|k: int| 0 <= k < i ==> (#[trigger] v[k]).0@ != v[i].0@,
    ensures
        provider_for(v, v[i].0@) == (text::opt_text(v[i].1.base_url), text::opt_text(v[i].1.model)),
    decreases v.len(),
{
    if i > 0 {
        let t = v.drop_first();
        assert(v[0].0@ != v[i].0@);
        assert(t[i - 1] == v[i]);
        assert forall|k: int| 0 <= k < i - 1 implies (#[trigger] t[k]).0@ != t[i - 1].0@ by {
            assert(t[k] == v[k + 1]);
        }
        providers_are_found_by_name(t, i - 1);
    }
}

proof fn lemma_agent_names()
    ensures
        "copilot"@.len() == 7,
        "shell"@.len() == 5,
        "http"@.len() == 4,
        "openai"@.len() == 6,
        "acp"@.len() == 3,
{
    reveal_strlit("copilot");
    reveal_strlit("shell");
    reveal_strlit("http");
    reveal_strlit("openai");
    reveal_strlit("acp");
}

/// The main agent is run with its settings, whatever it is called.
pub proof fn main_agent_is_run_with_its_settings(
    name: Seq<char>,
    a: AgentSection,
    p: (Option<Seq<char>>, Option<Seq<char>>),
    home: Option<Seq<char>>,
    key: Seq<char>,
    r: Result<AgentPlan, String>,
)
    requires
        plan_is(name, name, a, p, home, key, r),
    ensures
        r matches Ok(AgentPlan::Claude(c)) && c@ == claude_view(name, a, home),
{
}

/// The agent behind HTTP asks the configured provider for the configured model with
/// the key it was given; what is not configured is the usual.
pub proof fn http_agent_asks_its_provider(
    main: Seq<char>,
    name: Seq<char>,
    a: AgentSection,
    url: Seq<char>,
    model: Seq<char>,
    home: Option<Seq<char>>,
    key: Seq<char>,
    given: Result<AgentPlan, String>,
    usual: Result<AgentPlan, String>,
)
    requires
        name == "http"@ || name == "openai"@,
        name != main,
        plan_is(main, name, a, (Some(url), Some(model)), home, key, given),
        plan_is(main, name, a, (None, None), home, key, usual),
    ensures
        given matches Ok(AgentPlan::Http(h)) && h.base_url@ == url && h.model@ == model && h.api_key@
            == key && h.agent_name@ == "openai"@ && h.stream,
        usual matches Ok(AgentPlan::Http(h)) && h.base_url@ == "https://api.openai.com/v1"@
            && h.model@ == "gpt-4o-mini"@ && h.api_key@ == key,
{
    lemma_agent_names();
}

/// An agent that is a program needs one; it gets the arguments of its section.
pub proof fn program_agents_need_a_program(
    main: Seq<char>,
    a: AgentSection,
    p: (Option<Seq<char>>, Option<Seq<char>>),
    home: Option<Seq<char>>,
    key: Seq<char>,
    shell: Result<AgentPlan, String>,
    acp: Result<AgentPlan, String>,
    copilot: Result<AgentPlan, String>,
)
    requires
        main != "shell"@ && main != "acp"@ && main != "copilot"@,
        plan_is(main, "shell"@, a, p, home, key, shell),
        plan_is(main, "acp"@, a, p, home, key, acp),
        plan_is(main, "copilot"@, a, p, home, key, copilot),
    ensures
        a.binary is None ==> shell is Err && acp is Err,
        a.binary is Some ==> (shell matches Ok(AgentPlan::Cli { name, cfg }) && name@ == "shell"@
            && cfg.binary@ == a.binary->Some_0@ && !cfg.supports_resume && (a.extra_args is Some
            ==> text::texts(cfg.args@) == text::texts(a.extra_args->Some_0@)) && (a.extra_args
            is None ==> cfg.args@.len() == 0)),
        a.binary is Some ==> (acp matches Ok(AgentPlan::Acp(c)) && c.binary@ == a.binary->Some_0@
            && c.cwd == a.cwd && (a.extra_args is Some ==> text::texts(c.args@) == text::texts(
            a.extra_args->Some_0@,
        ))),
        a.binary is None && a.extra_args is None ==> (copilot matches Ok(
            AgentPlan::Cli { name, cfg },
        ) && name@ == "copilot"@ && cfg.binary@ == "gh"@ && text::texts(cfg.args@) == seq![
            "copilot"@,
            "explain"@,
        ]),
        a.binary is Some && a.extra_args is Some ==> (copilot matches Ok(
            AgentPlan::Cli { name, cfg },
        ) && cfg.binary@ == a.binary->Some_0@ && text::texts(cfg.args@) == text::texts(
            a.extra_args->Some_0@,
        )),
{
    lemma_agent_names();
    if a.binary is Some && a.extra_args is None {
        if let Ok(AgentPlan::Cli { name, cfg }) = shell {
            assert(text::texts(cfg.args@).len() == 0);
        }
    }
}

proof fn lemma_platform_names()
    ensures
        "stdio"@.len() == 5 && "stdio"@[1] == 't',
        "line"@.len() == 4,
        "slack"@.len() == 5 && "slack"@[1] == 'l',
        "telegram"@.len() == 8,
        "discord"@.len() == 7,
{
    reveal_strlit("stdio");
    reveal_strlit("line");
    reveal_strlit("slack");
    reveal_strlit("telegram");
    reveal_strlit("discord");
}

/// Each platform is asked for by its name and finds its secrets in the variables that
/// are configured, or else in the usual ones.
pub proof fn platforms_find_their_secrets(
    p: PlatformsSection,
    stdio: Result<PlatformPlan, String>,
    slack: Result<PlatformPlan, String>,
    telegram: Result<PlatformPlan, String>,
    discord: Result<PlatformPlan, String>,
)
    requires
        platform_is("stdio"@, p, stdio),
        platform_is("slack"@, p, slack),
        platform_is("telegram"@, p, telegram),
        platform_is("discord"@, p, discord),
    ensures
        stdio matches Ok(PlatformPlan::Stdio),
        telegram matches Ok(PlatformPlan::Telegram { bot_env }) && bot_env@
            == "TELEGRAM_BOT_TOKEN"@,
        discord matches Ok(PlatformPlan::Discord { bot_env }) && bot_env@ == "DISCORD_BOT_TOKEN"@,
        slack matches Ok(PlatformPlan::Slack { app_env, bot_env }) && (p.slack is None ==> app_env@
            == "SLACK_APP_TOKEN"@ && bot_env@ == "SLACK_BOT_TOKEN"@) && (p.slack matches Some(s) ==> (
        s.app_token_env is Some ==> app_env@ == s.app_token_env->Some_0@) && (s.bot_token_env
            is Some ==> bot_env@ == s.bot_token_env->Some_0@)),
{
    lemma_platform_names();
}

/// LINE finds its secrets, its address and its users in its section, or else has the
/// usual ones and serves everybody.
pub proof fn line_finds_its_settings(
    p: PlatformsSection,
    l: LineSection,
    r: Result<PlatformPlan, String>,
)
    requires
        platform_is("line"@, p, r),
    ensures
        p.line is None ==> (r matches Ok(
            PlatformPlan::Line { secret_env, token_env, bind, allowlist, media },
        ) && secret_env@ == "LINE_CHANNEL_SECRET"@ && token_env@ == "LINE_CHANNEL_TOKEN"@ && bind@
            == "0.0.0.0:8080"@ && allowlist@.len() == 0 && media == MediaPlan::Nothing),
        p.line == Some(l) ==> (r matches Ok(
            PlatformPlan::Line { secret_env, token_env, bind, allowlist, media },
        ) && (l.channel_secret_env is Some ==> secret_env@ == l.channel_secret_env->Some_0@) && (
        l.channel_token_env is Some ==> token_env@ == l.channel_token_env->Some_0@) && (
        l.webhook_bind is Some ==> bind@ == l.webhook_bind->Some_0@) && (l.allowlist is Some
            ==> text::texts(allowlist@) == text::texts(l.allowlist->Some_0@)) && media_is(
            l.media,
            media,
        )),
{
    lemma_platform_names();
    if p.line is None {
        if let Ok(PlatformPlan::Line { secret_env, token_env, bind, allowlist, media }) = r {
            assert(text::texts(allowlist@).len() == 0);
        }
    }
}

/// Media are served from here, or from the cloud, as configured; otherwise not at
/// all.
pub proof fn media_are_served_as_configured(m: MediaSection, r: MediaPlan)
    requires
        media_is(Some(m), r),
    ensures
        text::opt_text(m.kind) == Some("local-http"@) ==> (r matches MediaPlan::LocalHttp {
            bind,
            public_base_url,
        } && (m.bind is Some ==> bind@ == m.bind->Some_0@) && (m.bind is None ==> bind@
            == "0.0.0.0:8081"@) && text::opt_text(public_base_url) == text::opt_text(
            m.public_base_url,
        )),
        text::opt_text(m.kind) == Some("azure-blob"@) ==> (r matches MediaPlan::AzureBlob {
            connection_env,
            container,
            expiry_secs,
        } && (m.container is Some ==> container@ == m.container->Some_0@) && (m.container is None
            ==> container@ == "aab-media"@) && (m.connection_string_env is Some ==> connection_env@
            == m.connection_string_env->Some_0@) && (m.connection_string_env is None
            ==> connection_env@ == "AZURE_STORAGE_CONNECTION_STRING"@) && (m.sas_expiry_secs is None
            ==> expiry_secs == 3600) && (m.sas_expiry_secs is Some ==> Some(expiry_secs)
            == m.sas_expiry_secs)),
        m.kind is None ==> r == MediaPlan::Nothing,
{
    reveal_strlit("local-http");
    reveal_strlit("azure-blob");
    assert("local-http"@[0] == 'l' && "azure-blob"@[0] == 'a');
}

/// An agent or a platform of another name is not there, and the error says which was
/// asked for.
pub proof fn other_names_are_not_there(
    main: Seq<char>,
    name: Seq<char>,
    a: AgentSection,
    p: (Option<Seq<char>>, Option<Seq<char>>),
    home: Option<Seq<char>>,
    key: Seq<char>,
    agent: Result<AgentPlan, String>,
    sections: PlatformsSection,
    platform: Result<PlatformPlan, String>,
)
    requires
        name.len() > 8,
        name != main,
        plan_is(main, name, a, p, home, key, agent),
        platform_is(name, sections, platform),
    ensures
        agent matches Err(e) && e@ == "agent `"@ + name + "` not enabled in this build"@,
        platform matches Err(e) && e@ == "platform `"@ + name + "` not enabled in this build"@,
{
    lemma_agent_names();
    lemma_platform_names();
}

} // verus!
