//! The agent command line in stream-json mode: its configuration, its command line
//! and the frames written to its standard input.

use vstd::prelude::*;
use vstd::string::*;

use crate::ids;
use crate::json;
use crate::json::{Json, Members};
use crate::sign;
use crate::text;
use crate::types;
use crate::types::{Attachment, AttachmentKind, SessionKey};

verus! {

#[derive(Clone, Copy, Debug, PartialEq, Eq, Structural)]
pub enum PermissionMode {
    Ask,
    AcceptEdits,
    BypassPermissions,
}

/// How the agent is started.
#[derive(Debug, PartialEq, Eq)]
pub struct ClaudeCodeConfig {
    pub binary: String,
    /// Appended at the end of the command line.
    pub extra_args: Vec<String>,
    pub cwd: Option<String>,
    pub permission_mode: PermissionMode,
    /// `--dangerously-skip-permissions`.
    pub skip_permissions: bool,
    /// `--allowedTools <tool>...`.
    pub allowed_tools: Vec<String>,
    /// `--disallowedTools <tool>...`.
    pub disallowed_tools: Vec<String>,
    /// `--max-budget-usd <amount>`, as it is written on the command line.
    pub max_budget_usd: Option<String>,
    /// `--include-partial-messages`.
    pub include_partial_messages: bool,
    /// `--model <model>`.
    pub model: Option<String>,
    /// `--fallback-model <model>`.
    pub fallback_model: Option<String>,
    /// `--effort <low|medium|high|xhigh|max>`.
    pub effort: Option<String>,
    /// `--add-dir <dir>` for each.
    pub add_dirs: Vec<String>,
    /// `--append-system-prompt <prompt>`.
    pub append_system_prompt: Option<String>,
    /// `--mcp-config <file>` for each.
    pub mcp_config_files: Vec<String>,
    /// `--session-id <uuid>`, where it is not left to chance.
    pub session_id: Option<String>,
    /// Up to how many bytes an image is meant to be sent inline.
    pub inline_image_max_bytes: u64,
    /// Where each client has its own working directory, if it has.
    pub client_config_base_dir: Option<String>,
    /// What a new working directory is copied from.
    pub client_template_dir: Option<String>,
}

pub struct ClaudeView {
    pub binary: Seq<char>,
    pub extra_args: Seq<Seq<char>>,
    pub cwd: Option<Seq<char>>,
    pub permission_mode: PermissionMode,
    pub skip_permissions: bool,
    pub allowed_tools: Seq<Seq<char>>,
    pub disallowed_tools: Seq<Seq<char>>,
    pub max_budget_usd: Option<Seq<char>>,
    pub include_partial_messages: bool,
    pub model: Option<Seq<char>>,
    pub fallback_model: Option<Seq<char>>,
    pub effort: Option<Seq<char>>,
    pub add_dirs: Seq<Seq<char>>,
    pub append_system_prompt: Option<Seq<char>>,
    pub mcp_config_files: Seq<Seq<char>>,
    pub session_id: Option<Seq<char>>,
    pub inline_image_max_bytes: u64,
    pub client_config_base_dir: Option<Seq<char>>,
    pub client_template_dir: Option<Seq<char>>,
}

impl View for ClaudeCodeConfig {
    type V = ClaudeView;

    open spec fn view(&self) -> ClaudeView {
        ClaudeView {
            binary: self.binary@,
            extra_args: text::texts(self.extra_args@),
            cwd: text::opt_text(self.cwd),
            permission_mode: self.permission_mode,
            skip_permissions: self.skip_permissions,
            allowed_tools: text::texts(self.allowed_tools@),
            disallowed_tools: text::texts(self.disallowed_tools@),
            max_budget_usd: text::opt_text(self.max_budget_usd),
            include_partial_messages: self.include_partial_messages,
            model: text::opt_text(self.model),
            fallback_model: text::opt_text(self.fallback_model),
            effort: text::opt_text(self.effort),
            add_dirs: text::texts(self.add_dirs@),
            append_system_prompt: text::opt_text(self.append_system_prompt),
            mcp_config_files: text::texts(self.mcp_config_files@),
            session_id: text::opt_text(self.session_id),
            inline_image_max_bytes: self.inline_image_max_bytes,
            client_config_base_dir: text::opt_text(self.client_config_base_dir),
            client_template_dir: text::opt_text(self.client_template_dir),
        }
    }
}

/// The configuration where only the program is named: permissions are skipped
/// and partial messages are included.
pub open spec fn default_config(binary: Seq<char>) -> ClaudeView {
    ClaudeView {
        binary,
        extra_args: Seq::empty(),
        cwd: None,
        permission_mode: PermissionMode::Ask,
        skip_permissions: true,
        allowed_tools: Seq::empty(),
        disallowed_tools: Seq::empty(),
        max_budget_usd: None,
        include_partial_messages: true,
        model: None,
        fallback_model: None,
        effort: None,
        add_dirs: Seq::empty(),
        append_system_prompt: None,
        mcp_config_files: Seq::empty(),
        session_id: None,
        inline_image_max_bytes: 262_144,
        client_config_base_dir: None,
        client_template_dir: None,
    }
}

fn no_strings() -> (r: Vec<String>)
    ensures
        text::texts(r@) == Seq::<Seq<char>>::empty(),
{
    let v: Vec<String> = Vec::new();
    assert(text::texts(v@) =~= Seq::<Seq<char>>::empty());
    v
}

impl ClaudeCodeConfig {
    /// What holds if nothing but the program is configured.
    pub fn new(binary: &str) -> (r: ClaudeCodeConfig)
        ensures
            r@ == default_config(binary@),
    {
        ClaudeCodeConfig {
            binary: binary.to_string(),
            extra_args: no_strings(),
            cwd: None,
            permission_mode: PermissionMode::Ask,
            skip_permissions: true,
            allowed_tools: no_strings(),
            disallowed_tools: no_strings(),
            max_budget_usd: None,
            include_partial_messages: true,
            model: None,
            fallback_model: None,
            effort: None,
            add_dirs: no_strings(),
            append_system_prompt: None,
            mcp_config_files: no_strings(),
            session_id: None,
            inline_image_max_bytes: 262_144,
            client_config_base_dir: None,
            client_template_dir: None,
        }
    }
}

impl Clone for ClaudeCodeConfig {
    fn clone(&self) -> (r: ClaudeCodeConfig)
        ensures
            r@ == self@,
    {
        ClaudeCodeConfig {
            binary: self.binary.clone(),
            extra_args: text::copy_strings(&self.extra_args),
            cwd: types::copy_opt(&self.cwd),
            permission_mode: self.permission_mode,
            skip_permissions: self.skip_permissions,
            allowed_tools: text::copy_strings(&self.allowed_tools),
            disallowed_tools: text::copy_strings(&self.disallowed_tools),
            max_budget_usd: types::copy_opt(&self.max_budget_usd),
            include_partial_messages: self.include_partial_messages,
            model: types::copy_opt(&self.model),
            fallback_model: types::copy_opt(&self.fallback_model),
            effort: types::copy_opt(&self.effort),
            add_dirs: text::copy_strings(&self.add_dirs),
            append_system_prompt: types::copy_opt(&self.append_system_prompt),
            mcp_config_files: text::copy_strings(&self.mcp_config_files),
            session_id: types::copy_opt(&self.session_id),
            inline_image_max_bytes: self.inline_image_max_bytes,
            client_config_base_dir: types::copy_opt(&self.client_config_base_dir),
            client_template_dir: types::copy_opt(&self.client_template_dir),
        }
    }
}

// ── Overrides ───────────────────────────────────────────────────────────

/// How an amount of money reads.
#[derive(Debug, PartialEq, Eq)]
pub enum Amount {
    /// It is no number.
    NotANumber,
    /// It is zero or less.
    NotPositive,
    /// It is more than zero; this is the number as it is written.
    Positive(String),
}

/// A value, none where it is empty.
pub open spec fn unless_empty(v: Seq<char>) -> Option<Seq<char>> {
    if v.len() == 0 {
        None
    } else {
        Some(v)
    }
}

pub open spec fn is_effort(v: Seq<char>) -> bool {
    v == "low"@ || v == "medium"@ || v == "high"@ || v == "xhigh"@ || v == "max"@ || v.len() == 0
}

/// The configuration with a value overridden, or why it cannot be. `usd` is
/// how the value reads as an amount of money.
pub open spec fn overridden(c: ClaudeView, name: Seq<char>, value: Seq<char>, usd: Amount) -> Result<
    ClaudeView,
    Seq<char>,
> {
    if name == "model"@ {
        Ok(ClaudeView { model: unless_empty(value), ..c })
    } else if name == "fallback_model"@ {
        Ok(ClaudeView { fallback_model: unless_empty(value), ..c })
    } else if name == "effort"@ {
        if is_effort(value) {
            Ok(ClaudeView { effort: unless_empty(value), ..c })
        } else {
            Err("effort must be one of low|medium|high|xhigh|max"@)
        }
    } else if name == "budget"@ {
        match usd {
            Amount::NotANumber => Err("budget must be a number (USD)"@),
            Amount::NotPositive => Ok(ClaudeView { max_budget_usd: None, ..c }),
            Amount::Positive(t) => Ok(ClaudeView { max_budget_usd: Some(t@), ..c }),
        }
    } else if name == "append_system_prompt"@ {
        Ok(ClaudeView { append_system_prompt: unless_empty(value), ..c })
    } else if name == "add_dir"@ {
        Ok(ClaudeView { add_dirs: c.add_dirs.push(value), ..c })
    } else if name == "clear_dirs"@ {
        Ok(ClaudeView { add_dirs: Seq::empty(), ..c })
    } else if name == "allow_tool"@ {
        Ok(ClaudeView { allowed_tools: c.allowed_tools.push(value), ..c })
    } else if name == "deny_tool"@ {
        Ok(ClaudeView { disallowed_tools: c.disallowed_tools.push(value), ..c })
    } else if name == "clear_tools"@ {
        Ok(ClaudeView { allowed_tools: Seq::empty(), disallowed_tools: Seq::empty(), ..c })
    } else {
        Err("unknown override `"@ + name + "`"@)
    }
}

fn nonempty(v: &str) -> (r: Option<String>)
    ensures
        text::opt_text(r) == unless_empty(v@),
{
    if v.unicode_len() == 0 {
        None
    } else {
        Some(v.to_string())
    }
}

fn push_text(v: &mut Vec<String>, s: &str)
    ensures
        text::texts(final(v)@) == text::texts(old(v)@).push(s@),
{
    let ghost before = v@;
    v.push(s.to_string());
    assert(text::texts(v@) =~= text::texts(before).push(s@));
}

impl ClaudeCodeConfig {
    /// Override a value before the next session starts. `usd` is how the value
    /// reads as an amount of money. A name that is unknown, or a value that
    /// does not fit it, changes nothing.
    pub fn set_override(&mut self, name: &str, value: &str, usd: Amount) -> (r: Result<(), String>)
        ensures
            match (r, overridden(old(self)@, name@, value@, usd)) {
                (Ok(()), Ok(c)) => final(self)@ == c,
                (Err(e), Err(t)) => e@ == t && final(self)@ == old(self)@,
                _ => false,
            },
    {
        if text::same(name, "model") {
            self.model = nonempty(value);
        } else if text::same(name, "fallback_model") {
            self.fallback_model = nonempty(value);
        } else if text::same(name, "effort") {
            if !(text::same(value, "low") || text::same(value, "medium") || text::same(
                value,
                "high",
            ) || text::same(value, "xhigh") || text::same(value, "max") || value.unicode_len()
                == 0) {
                return Err("effort must be one of low|medium|high|xhigh|max".to_string());
            }
            self.effort = nonempty(value);
        } else if text::same(name, "budget") {
            match usd {
                Amount::NotANumber => {
                    return Err("budget must be a number (USD)".to_string());
                },
                Amount::NotPositive => {
                    self.max_budget_usd = None;
                },
                Amount::Positive(t) => {
                    self.max_budget_usd = Some(t);
                },
            }
        } else if text::same(name, "append_system_prompt") {
            self.append_system_prompt = nonempty(value);
        } else if text::same(name, "add_dir") {
            push_text(&mut self.add_dirs, value);
        } else if text::same(name, "clear_dirs") {
            self.add_dirs = no_strings();
        } else if text::same(name, "allow_tool") {
            push_text(&mut self.allowed_tools, value);
        } else if text::same(name, "deny_tool") {
            push_text(&mut self.disallowed_tools, value);
        } else if text::same(name, "clear_tools") {
            self.allowed_tools = no_strings();
            self.disallowed_tools = no_strings();
        } else {
            return Err(text::concat3("unknown override `", name, "`"));
        }
        Ok(())
    }
}

// ── Command line ────────────────────────────────────────────────────────

/// A flag with a value, nothing where there is none.
pub open spec fn opt_flag(flag: Seq<char>, v: Option<Seq<char>>) -> Seq<Seq<char>> {
    match v {
        Some(v) => seq![flag, v],
        None => Seq::empty(),
    }
}

/// A flag on its own, where it is on.
pub open spec fn on_flag(flag: Seq<char>, on: bool) -> Seq<Seq<char>> {
    if on {
        seq![flag]
    } else {
        Seq::empty()
    }
}

/// A flag in front of each value.
pub open spec fn each_flag(flag: Seq<char>, v: Seq<Seq<char>>) -> Seq<Seq<char>>
    decreases v.len(),
{
    if v.len() == 0 {
        Seq::empty()
    } else {
        each_flag(flag, v.drop_last()) + seq![flag, v.last()]
    }
}

/// A flag in front of all values, nothing where there are none.
pub open spec fn list_flag(flag: Seq<char>, v: Seq<Seq<char>>) -> Seq<Seq<char>> {
    if v.len() == 0 {
        Seq::empty()
    } else {
        seq![flag] + v
    }
}

pub open spec fn permission_flag(m: PermissionMode) -> Seq<Seq<char>> {
    match m {
        PermissionMode::Ask => Seq::empty(),
        PermissionMode::AcceptEdits => seq!["--permission-mode"@, "acceptEdits"@],
        PermissionMode::BypassPermissions => seq!["--permission-mode"@, "bypassPermissions"@],
    }
}

/// The arguments of the agent that do not depend on the session.
pub open spec fn options(c: ClaudeView) -> Seq<Seq<char>> {
    seq![
        "--input-format"@,
        "stream-json"@,
        "--output-format"@,
        "stream-json"@,
        "-p"@,
        "--verbose"@,
    ] + on_flag("--dangerously-skip-permissions"@, c.skip_permissions) + on_flag(
        "--include-partial-messages"@,
        c.include_partial_messages,
    ) + permission_flag(c.permission_mode) + opt_flag("--model"@, c.model) + opt_flag(
        "--fallback-model"@,
        c.fallback_model,
    ) + opt_flag("--effort"@, c.effort) + opt_flag(
        "--append-system-prompt"@,
        c.append_system_prompt,
    ) + opt_flag("--max-budget-usd"@, c.max_budget_usd) + each_flag("--add-dir"@, c.add_dirs)
        + each_flag("--mcp-config"@, c.mcp_config_files) + list_flag(
        "--allowedTools"@,
        c.allowed_tools,
    ) + list_flag("--disallowedTools"@, c.disallowed_tools)
}

/// The arguments that name the session.
pub open spec fn session_flag(resume: Option<Seq<char>>, id: Seq<char>) -> Seq<Seq<char>> {
    match resume {
        Some(r) => seq!["--resume"@, r],
        None => seq!["--session-id"@, id],
    }
}

/// The arguments of the agent for a session with the given id, which is resumed
/// where `resume` names one.
pub open spec fn spawn_line(c: ClaudeView, resume: Option<Seq<char>>, id: Seq<char>) -> Seq<
    Seq<char>,
> {
    options(c) + session_flag(resume, id) + c.extra_args
}

fn push_on(v: &mut Vec<String>, flag: &str, on: bool)
    ensures
        text::texts(final(v)@) == text::texts(old(v)@) + on_flag(flag@, on),
{
    if on {
        push_text(v, flag);
        assert(text::texts(v@) =~= text::texts(old(v)@) + on_flag(flag@, on));
    } else {
        assert(text::texts(v@) =~= text::texts(old(v)@) + on_flag(flag@, on));
    }
}

fn push_pair(v: &mut Vec<String>, a: &str, b: &str)
    ensures
        text::texts(final(v)@) == text::texts(old(v)@) + seq![a@, b@],
{
    push_text(v, a);
    push_text(v, b);
    assert(text::texts(v@) =~= text::texts(old(v)@) + seq![a@, b@]);
}

fn push_opt(v: &mut Vec<String>, flag: &str, value: &Option<String>)
    ensures
        text::texts(final(v)@) == text::texts(old(v)@) + opt_flag(flag@, text::opt_text(*value)),
{
    match value {
        Some(x) => {
            push_pair(v, flag, x.as_str());
        },
        None => {
            assert(text::texts(v@) =~= text::texts(old(v)@) + opt_flag(flag@, None));
        },
    }
}

fn push_all(v: &mut Vec<String>, values: &Vec<String>)
    ensures
        text::texts(final(v)@) == text::texts(old(v)@) + text::texts(values@),
{
    let ghost start = text::texts(v@);
    let ghost all = text::texts(values@);
    let mut i: usize = 0;
    assert(start =~= start + all.take(0));
    while i < values.len()
        invariant
            i <= values@.len(),
            all == text::texts(values@),
            text::texts(v@) == start + all.take(i as int),
        decreases values@.len() - i,
    {
        push_text(v, values[i].as_str());
        assert(all.take(i + 1) =~= all.take(i as int).push(all[i as int]));
        assert(start + all.take(i + 1) =~= (start + all.take(i as int)).push(all[i as int]));
        i = i + 1;
    }
    assert(all.take(i as int) =~= all);
}

fn push_each(v: &mut Vec<String>, flag: &str, values: &Vec<String>)
    ensures
        text::texts(final(v)@) == text::texts(old(v)@) + each_flag(flag@, text::texts(values@)),
{
    let ghost start = text::texts(v@);
    let ghost all = text::texts(values@);
    let mut i: usize = 0;
    assert(start =~= start + each_flag(flag@, all.take(0)));
    while i < values.len()
        invariant
            i <= values@.len(),
            all == text::texts(values@),
            text::texts(v@) == start + each_flag(flag@, all.take(i as int)),
        decreases values@.len() - i,
    {
        push_pair(v, flag, values[i].as_str());
        assert(all.take(i + 1).drop_last() =~= all.take(i as int));
        assert(start + each_flag(flag@, all.take(i + 1)) =~= (start + each_flag(
            flag@,
            all.take(i as int),
        )) + seq![flag@, all[i as int]]);
        i = i + 1;
    }
    assert(all.take(i as int) =~= all);
}

fn push_list(v: &mut Vec<String>, flag: &str, values: &Vec<String>)
    ensures
        text::texts(final(v)@) == text::texts(old(v)@) + list_flag(flag@, text::texts(values@)),
{
    if values.len() == 0 {
        assert(text::texts(v@) =~= text::texts(old(v)@) + list_flag(
            flag@,
            text::texts(values@),
        ));
    } else {
        push_text(v, flag);
        push_all(v, values);
        assert(text::texts(v@) =~= text::texts(old(v)@) + list_flag(
            flag@,
            text::texts(values@),
        ));
    }
}

/// The arguments of the agent for a session with the given id, which is resumed
/// where `resume` names one.
pub fn spawn_args(cfg: &ClaudeCodeConfig, resume: &Option<String>, id: &str) -> (r: Vec<String>)
    ensures
        text::texts(r@) == spawn_line(cfg@, text::opt_text(*resume), id@),
{
    let mut v: Vec<String> = no_strings();
    push_text(&mut v, "--input-format");
    push_text(&mut v, "stream-json");
    push_text(&mut v, "--output-format");
    push_text(&mut v, "stream-json");
    push_text(&mut v, "-p");
    push_text(&mut v, "--verbose");
    assert(text::texts(v@) =~= seq![
        "--input-format"@,
        "stream-json"@,
        "--output-format"@,
        "stream-json"@,
        "-p"@,
        "--verbose"@,
    ]);
    push_on(&mut v, "--dangerously-skip-permissions", cfg.skip_permissions);
    push_on(&mut v, "--include-partial-messages", cfg.include_partial_messages);
    let ghost before = text::texts(v@);
    match cfg.permission_mode {
        PermissionMode::Ask => {
            assert(before =~= before + permission_flag(cfg.permission_mode));
        },
        PermissionMode::AcceptEdits => {
            push_pair(&mut v, "--permission-mode", "acceptEdits");
        },
        PermissionMode::BypassPermissions => {
            push_pair(&mut v, "--permission-mode", "bypassPermissions");
        },
    }
    assert(text::texts(v@) == before + permission_flag(cfg.permission_mode));
    push_opt(&mut v, "--model", &cfg.model);
    push_opt(&mut v, "--fallback-model", &cfg.fallback_model);
    push_opt(&mut v, "--effort", &cfg.effort);
    push_opt(&mut v, "--append-system-prompt", &cfg.append_system_prompt);
    push_opt(&mut v, "--max-budget-usd", &cfg.max_budget_usd);
    push_each(&mut v, "--add-dir", &cfg.add_dirs);
    push_each(&mut v, "--mcp-config", &cfg.mcp_config_files);
    push_list(&mut v, "--allowedTools", &cfg.allowed_tools);
    push_list(&mut v, "--disallowedTools", &cfg.disallowed_tools);
    match resume {
        Some(r) => {
            push_pair(&mut v, "--resume", r.as_str());
        },
        None => {
            push_pair(&mut v, "--session-id", id);
        },
    }
    push_all(&mut v, &cfg.extra_args);
    v
}

/// The id of a new session: the one that is configured, else the one that is
/// resumed, else a fresh one.
pub open spec fn chosen_id(
    configured: Option<Seq<char>>,
    resume: Option<Seq<char>>,
    fresh: Seq<char>,
) -> Seq<char> {
    match (configured, resume) {
        (Some(id), _) => id,
        (None, Some(id)) => id,
        (None, None) => fresh,
    }
}

/// The id of a new session: the configured one, else the one to resume, else a
/// fresh one.
pub fn pick_session_id(cfg: &ClaudeCodeConfig, resume: &Option<String>, fresh: String) -> (r:
    String)
    ensures
        r@ == chosen_id(cfg@.session_id, text::opt_text(*resume), fresh@),
{
    match (&cfg.session_id, resume) {
        (Some(id), _) => id.clone(),
        (None, Some(id)) => id.clone(),
        (None, None) => fresh,
    }
}

/// The id of a new session, where a fresh one is a random UUID.
pub fn choose_session_id(cfg: &ClaudeCodeConfig, resume: &Option<String>) -> (r: String)
    ensures
        exists|fresh: Seq<char>|
            ids::is_uuid(fresh) && r@ == #[trigger] chosen_id(
                cfg@.session_id,
                text::opt_text(*resume),
                fresh,
            ),
{
    let fresh: String = ids::new_id();
    let ghost f = fresh@;
    let r: String = pick_session_id(cfg, resume, fresh);
    assert(ids::is_uuid(f) && r@ == chosen_id(cfg@.session_id, text::opt_text(*resume), f));
    r
}

/// The id that a session is known under is the one that its command line names,
/// so that it is known before the agent says a word. It need not be so where an
/// id is configured and another session is resumed.
pub proof fn command_line_names_the_session(
    c: ClaudeView,
    resume: Option<Seq<char>>,
    fresh: Seq<char>,
)
    requires
        c.session_id is None || resume is None || c.session_id == resume,
    ensures
        ({
            let id = chosen_id(c.session_id, resume, fresh);
            let line = spawn_line(c, resume, id);
            let at = options(c).len() as int;
            &&& at + 1 < line.len()
            &&& line[at] == (if resume is Some {
                "--resume"@
            } else {
                "--session-id"@
            })
            &&& line[at + 1] == id
        }),
{
}

// ── Client directories ──────────────────────────────────────────────────

/// Whether a character is a letter or a digit, as Unicode has it.
pub uninterp spec fn alphanumeric(c: char) -> bool;

/// `char::is_alphanumeric`.
#[verifier::external_body]
fn is_alphanumeric(c: char) -> (r: bool)
    ensures
        r == alphanumeric(c),
{
    c.is_alphanumeric()
}

/// A letter or a digit: of the ASCII characters those of `A` to `Z`, `a` to `z`
/// and `0` to `9`.
pub open spec fn is_word_char(c: char) -> bool {
    if c as u32 <= 0x7f {
        text::is_ascii_alnum(c)
    } else {
        alphanumeric(c)
    }
}

fn word_char(c: char) -> (r: bool)
    ensures
        r == is_word_char(c),
{
    if c as u32 <= 0x7f {
        text::ascii_alnum(c)
    } else {
        is_alphanumeric(c)
    }
}

/// A character that may stand in the name of a client directory.
pub open spec fn in_dirname(c: char) -> bool {
    is_word_char(c) || c == '_' || c == '-' || c == '.'
}

/// The characters that may stand in the name of a client directory.
pub open spec fn dirname_chars(s: Seq<char>) -> Seq<char>
    decreases s.len(),
{
    if s.len() == 0 {
        s
    } else if in_dirname(s.last()) {
        dirname_chars(s.drop_last()).push(s.last())
    } else {
        dirname_chars(s.drop_last())
    }
}

/// The name of the directory of a client: `line:U1234` has `line__U1234`.
pub open spec fn dirname(key: Seq<char>) -> Seq<char> {
    dirname_chars(text::replace_chars(key, seq![':', '/'], "__"@))
}

/// The name of the directory of a client. Its ASCII characters are letters,
/// digits, `_`, `-` and `.`, so it is a single path component.
pub fn session_key_to_dirname(key: &SessionKey) -> (r: String)
    ensures
        r@ == dirname(key@),
        forall|i: int|
            0 <= i < r@.len() && (#[trigger] r@[i]) as u32 <= 0x7f ==> text::is_ascii_alnum(r@[i])
                || r@[i] == '_' || r@[i] == '-' || r@[i] == '.',
{
    let marks: Vec<char> = text::chars_of(":/");
    proof {
        reveal_strlit(":/");
        assert(marks@ =~= seq![':', '/']);
    }
    let flat: String = text::chars_replaced(key.0.as_str(), &marks, "__");
    let v: Vec<char> = text::chars_of(flat.as_str());
    let mut out: String = String::new();
    let mut i: usize = 0;
    assert(out@ =~= dirname_chars(v@.take(0)));
    while i < v.len()
        invariant
            i <= v@.len(),
            out@ == dirname_chars(v@.take(i as int)),
            forall|j: int|
                0 <= j < out@.len() && (#[trigger] out@[j]) as u32 <= 0x7f ==> text::is_ascii_alnum(
                    out@[j],
                ) || out@[j] == '_' || out@[j] == '-' || out@[j] == '.',
        decreases v@.len() - i,
    {
        let c: char = v[i];
        assert(v@.take(i + 1).drop_last() =~= v@.take(i as int));
        if word_char(c) || c == '_' || c == '-' || c == '.' {
            out.push(c);
        }
        i = i + 1;
    }
    assert(v@.take(i as int) =~= v@);
    out
}

/// A character that stands between the parts of a key.
pub open spec fn is_separator(c: char) -> bool {
    c == ':' || c == '/'
}

/// A character that the name of a directory keeps, or that separates.
pub open spec fn is_key_char(c: char) -> bool {
    in_dirname(c) || is_separator(c)
}

/// An underscore stands next to another or next to a separator, so that the name
/// of the directory does not show which is which.
pub open spec fn crowded(c: char, d: char) -> bool {
    (c == '_' && (d == '_' || is_separator(d))) || (d == '_' && is_separator(c))
}

/// A key of letters and digits of any script, `_`, `-` and `.`, with separators
/// between them and no underscore next to another or to a separator. Any other
/// key has the directory of some key that differs from it in more than the
/// choice of separators.
pub open spec fn tidy_key(key: Seq<char>) -> bool {
    &&& forall|i: int| 0 <= i < key.len() ==> is_key_char(#[trigger] key[i])
    &&& forall|i: int, j: int|
        0 <= i && j == i + 1 && j < key.len() ==> !crowded(#[trigger] key[i], #[trigger] key[j])
}

/// A key with every `/` read as `:`.
pub open spec fn same_separators(key: Seq<char>) -> Seq<char> {
    Seq::new(
        key.len(),
        |i: int|
            if key[i] == '/' {
                ':'
            } else {
                key[i]
            },
    )
}

proof fn lemma_dirname_kept(s: Seq<char>)
    requires
        forall|i: int| 0 <= i < s.len() ==> in_dirname(#[trigger] s[i]),
    ensures
        dirname_chars(s) == s,
    decreases s.len(),
{
    if s.len() > 0 {
        assert(in_dirname(s[s.len() - 1]));
        assert forall|i: int| 0 <= i < s.drop_last().len() implies in_dirname(
            #[trigger] s.drop_last()[i],
        ) by {
            assert(in_dirname(s[i]));
        }
        lemma_dirname_kept(s.drop_last());
        assert(s.drop_last().push(s.last()) =~= s);
    }
}

/// The name of the directory of a tidy key drops nothing.
proof fn lemma_dirname_of_tidy(key: Seq<char>)
    requires
        forall|i: int| 0 <= i < key.len() ==> is_key_char(#[trigger] key[i]),
    ensures
        dirname(key) == text::replace_chars(key, seq![':', '/'], "__"@),
        forall|i: int| 0 <= i < dirname(key).len() ==> in_dirname(#[trigger] dirname(key)[i]),
    decreases key.len(),
{
    let flat = text::replace_chars(key, seq![':', '/'], "__"@);
    reveal_strlit("__");
    if key.len() > 0 {
        let front = key.drop_last();
        assert forall|i: int| 0 <= i < front.len() implies is_key_char(
            #[trigger] front[i],
        ) by {
            assert(is_key_char(key[i]));
        }
        lemma_dirname_of_tidy(front);
        let head = text::replace_chars(front, seq![':', '/'], "__"@);
        assert(is_key_char(key[key.len() - 1]));
        assert(seq![':', '/'][0] == ':' && seq![':', '/'][1] == '/');
        assert forall|i: int| 0 <= i < flat.len() implies in_dirname(#[trigger] flat[i]) by {
            if i < head.len() {
                assert(flat[i] == head[i]);
                assert(in_dirname(dirname(front)[i]));
            }
        }
    }
    lemma_dirname_kept(flat);
}

/// A tidy key that ends with an underscore has a directory whose name ends with
/// just one.
proof fn lemma_lone_underscore(key: Seq<char>)
    requires
        tidy_key(key),
        key.len() > 0,
        key.last() == '_',
    ensures
        ({
            let flat = text::replace_chars(key, seq![':', '/'], "__"@);
            flat.len() < 2 || flat[flat.len() - 2] != '_'
        }),
{
    let marks = seq![':', '/'];
    let front = key.drop_last();
    reveal_strlit("__");
    assert(marks[0] == ':' && marks[1] == '/');
    assert(!marks.contains('_'));
    if front.len() > 0 {
        let last = key.len() - 1;
        assert(!crowded(key[last - 1], key[last]));
        assert(front.last() == key[last - 1]);
        assert(!marks.contains(front.last()));
        let head = text::replace_chars(front, marks, "__"@);
        assert(head.last() == front.last());
    } else {
        assert(text::replace_chars(front, marks, "__"@).len() == 0);
    }
}

/// Clients do not share a directory: tidy keys with the same one are the same key,
/// but for which of the two separators stands where.
pub proof fn clients_do_not_share_a_directory(a: Seq<char>, b: Seq<char>)
    requires
        tidy_key(a),
        tidy_key(b),
        dirname(a) == dirname(b),
    ensures
        same_separators(a) == same_separators(b),
    decreases a.len() + b.len(),
{
    let marks = seq![':', '/'];
    let by = "__"@;
    reveal_strlit("__");
    assert(marks[0] == ':' && marks[1] == '/');
    assert(forall|c: char| marks.contains(c) ==> c == ':' || c == '/');
    lemma_dirname_of_tidy(a);
    lemma_dirname_of_tidy(b);
    let x = text::replace_chars(a, marks, by);
    let y = text::replace_chars(b, marks, by);
    if a.len() == 0 {
        if b.len() > 0 {
            assert(y.len() > 0);
        }
        assert(same_separators(a) =~= same_separators(b));
    } else if b.len() == 0 {
        assert(x.len() > 0);
    } else {
        let fa = a.drop_last();
        let fb = b.drop_last();
        let p = text::replace_chars(fa, marks, by);
        let q = text::replace_chars(fb, marks, by);
        let la = a.last();
        let lb = b.last();
        assert(is_key_char(a[a.len() - 1]) && is_key_char(b[b.len() - 1]));
        assert(x.last() == if marks.contains(la) {
            '_'
        } else {
            la
        });
        assert(y.last() == if marks.contains(lb) {
            '_'
        } else {
            lb
        });
        assert(marks.contains(la) == marks.contains(lb)) by {
            if la == '_' && marks.contains(lb) {
                lemma_lone_underscore(a);
                assert(y[y.len() - 2] == '_');
            }
            if lb == '_' && marks.contains(la) {
                lemma_lone_underscore(b);
                assert(x[x.len() - 2] == '_');
            }
        }
        assert(p.len() == q.len());
        assert(p =~= x.take(p.len() as int));
        assert(q =~= y.take(q.len() as int));
        assert forall|i: int| 0 <= i < fa.len() implies is_key_char(#[trigger] fa[i]) by {
            assert(is_key_char(a[i]));
        }
        assert forall|i: int| 0 <= i < fb.len() implies is_key_char(#[trigger] fb[i]) by {
            assert(is_key_char(b[i]));
        }
        assert forall|i: int, j: int| 0 <= i && j == i + 1 && j < fa.len() implies !crowded(
            #[trigger] fa[i],
            #[trigger] fa[j],
        ) by {
            assert(!crowded(a[i], a[j]));
        }
        assert forall|i: int, j: int| 0 <= i && j == i + 1 && j < fb.len() implies !crowded(
            #[trigger] fb[i],
            #[trigger] fb[j],
        ) by {
            assert(!crowded(b[i], b[j]));
        }
        lemma_dirname_of_tidy(fa);
        lemma_dirname_of_tidy(fb);
        clients_do_not_share_a_directory(fa, fb);
        assert(same_separators(a) =~= same_separators(fa).push(same_separators(a).last()));
        assert(same_separators(b) =~= same_separators(fb).push(same_separators(b).last()));
    }
}

proof fn lemma_dirname_of_parts(a: Seq<char>, b: Seq<char>)
    ensures
        dirname(a + b) == dirname(a) + dirname(b),
    decreases b.len(),
{
    let marks = seq![':', '/'];
    let by = "__"@;
    if b.len() == 0 {
        assert(a + b =~= a);
        assert(text::replace_chars(b, marks, by).len() == 0);
        assert(dirname(b).len() == 0);
        assert(dirname(a) + dirname(b) =~= dirname(a));
    } else {
        let t = b.drop_last();
        lemma_dirname_of_parts(a, t);
        assert((a + b).drop_last() =~= a + t);
        assert((a + b).last() == b.last());
        let tail = if marks.contains(b.last()) {
            by
        } else {
            seq![b.last()]
        };
        lemma_dirname_chars_of_parts(text::replace_chars(a + t, marks, by), tail);
        lemma_dirname_chars_of_parts(text::replace_chars(t, marks, by), tail);
        assert(dirname(a + b) =~= dirname(a) + dirname(b));
    }
}

proof fn lemma_dirname_chars_of_parts(a: Seq<char>, b: Seq<char>)
    ensures
        dirname_chars(a + b) == dirname_chars(a) + dirname_chars(b),
    decreases b.len(),
{
    if b.len() == 0 {
        assert(a + b =~= a);
        assert(dirname_chars(a) + dirname_chars(b) =~= dirname_chars(a));
    } else {
        lemma_dirname_chars_of_parts(a, b.drop_last());
        assert((a + b).drop_last() =~= a + b.drop_last());
        assert(dirname_chars(a + b) =~= dirname_chars(a) + dirname_chars(b));
    }
}

proof fn lemma_dirname_of_char(c: char)
    ensures
        dirname(seq![c]) == (if is_separator(c) {
            "__"@
        } else if in_dirname(c) {
            seq![c]
        } else {
            Seq::empty()
        }),
{
    let marks = seq![':', '/'];
    let one = seq![c];
    reveal_strlit("__");
    assert(marks[0] == ':' && marks[1] == '/');
    assert(marks.contains(c) == is_separator(c));
    assert(one.drop_last() =~= Seq::<char>::empty());
    let flat = text::replace_chars(one, marks, "__"@);
    assert(text::replace_chars(one.drop_last(), marks, "__"@) =~= Seq::<char>::empty());
    if is_separator(c) {
        assert(flat =~= "__"@);
        lemma_dirname_kept("__"@);
    } else {
        assert(flat =~= one);
        assert(dirname_chars(one.drop_last()) =~= Seq::<char>::empty());
        assert(dirname_chars(one) =~= if in_dirname(c) {
            one
        } else {
            Seq::empty()
        });
    }
}

/// A key that is not tidy shares its directory with another, which differs from it
/// in more than the choice of separators.
pub proof fn untidy_keys_share_a_directory(key: Seq<char>)
    requires
        !tidy_key(key),
    ensures
        exists|other: Seq<char>| #[trigger]
            dirname(other) == dirname(key) && same_separators(other) != same_separators(key),
{
    reveal_strlit("__");
    if exists|i: int| 0 <= i < key.len() && !is_key_char(#[trigger] key[i]) {
        let i = choose|i: int| 0 <= i < key.len() && !is_key_char(#[trigger] key[i]);
        let (a, b) = (key.take(i), key.skip(i + 1));
        assert(key =~= a + seq![key[i]] + b);
        lemma_dirname_of_parts(a, seq![key[i]]);
        lemma_dirname_of_parts(a + seq![key[i]], b);
        lemma_dirname_of_parts(a, b);
        lemma_dirname_of_char(key[i]);
        assert(dirname(a + b) =~= dirname(key));
        assert(same_separators(a + b).len() != same_separators(key).len());
    } else {
        let (i, j) = choose|i: int, j: int|
            0 <= i && j == i + 1 && j < key.len() && crowded(#[trigger] key[i], #[trigger] key[j]);
        let (a, b) = (key.take(i), key.skip(i + 2));
        let (c, d) = (key[i], key[j]);
        assert(key =~= a + seq![c] + seq![d] + b);
        lemma_dirname_of_parts(a, seq![c]);
        lemma_dirname_of_parts(a + seq![c], seq![d]);
        lemma_dirname_of_parts(a + seq![c] + seq![d], b);
        lemma_dirname_of_char(c);
        lemma_dirname_of_char(d);
        if c == '_' && d == '_' {
            let other = a + seq![':'] + b;
            lemma_dirname_of_parts(a, seq![':']);
            lemma_dirname_of_parts(a + seq![':'], b);
            lemma_dirname_of_char(':');
            assert(dirname(other) =~= dirname(key));
            assert(same_separators(other).len() != same_separators(key).len());
        } else {
            let other = a + seq![d] + seq![c] + b;
            lemma_dirname_of_parts(a, seq![d]);
            lemma_dirname_of_parts(a + seq![d], seq![c]);
            lemma_dirname_of_parts(a + seq![d] + seq![c], b);
            assert(dirname(other) =~= dirname(key));
            assert(other[i] == d);
            assert(same_separators(other)[i] != same_separators(key)[i]);
        }
    }
}

proof fn lemma_dirname_chars(s: Seq<char>)
    ensures
        forall|i: int| 0 <= i < dirname_chars(s).len() ==> in_dirname(#[trigger] dirname_chars(s)[i]),
    decreases s.len(),
{
    if s.len() > 0 {
        let head = dirname_chars(s.drop_last());
        let all = dirname_chars(s);
        lemma_dirname_chars(s.drop_last());
        assert forall|i: int| 0 <= i < all.len() implies in_dirname(#[trigger] all[i]) by {
            if i < head.len() {
                assert(all[i] == head[i]);
            }
        }
    }
}

/// The directory of a client lies directly in the base directory: its name holds no
/// `/`, and as a key names its platform, it is neither empty nor made of dots.
pub proof fn client_directory_is_a_child(platform: Seq<char>, scoped: Seq<char>)
    ensures
        ({
            let name = dirname(types::session_key(platform, scoped));
            !name.contains('/') && name.contains('_')
        }),
{
    reveal_strlit(":");
    reveal_strlit("__");
    assert(":"@ =~= seq![':']);
    lemma_dirname_of_parts(platform, seq![':']);
    lemma_dirname_of_parts(platform + seq![':'], scoped);
    lemma_dirname_of_char(':');
    let key = types::session_key(platform, scoped);
    let name = dirname(key);
    assert(name[dirname(platform).len() as int] == '_');
    lemma_dirname_chars(text::replace_chars(key, seq![':', '/'], "__"@));
    assert(!in_dirname('/'));
}

/// A name in a directory.
pub open spec fn path_in(dir: Seq<char>, name: Seq<char>) -> Seq<char> {
    if dir.len() == 0 || dir.last() == '/' {
        dir + name
    } else {
        dir + "/"@ + name
    }
}

/// A name in a directory.
pub fn join_path(dir: &str, name: &str) -> (r: String)
    ensures
        r@ == path_in(dir@, name@),
{
    let v: Vec<char> = text::chars_of(dir);
    let n: usize = v.len();
    if n == 0 || v[n - 1] == '/' {
        text::concat2(dir, name)
    } else {
        text::concat3(dir, "/", name)
    }
}

impl ClaudeCodeConfig {
    /// The working directory of a client, where each has its own.
    pub fn client_dir(&self, key: &SessionKey) -> (r: Option<String>)
        ensures
            text::opt_text(r) == (match self@.client_config_base_dir {
                Some(base) => Some(path_in(base, dirname(key@))),
                None => None,
            }),
    {
        match &self.client_config_base_dir {
            Some(base) => Some(join_path(base.as_str(), session_key_to_dirname(key).as_str())),
            None => None,
        }
    }

    /// The configuration for a session of a client: where each client has its
    /// own working directory, that is where it runs.
    pub fn for_client(&self, key: &SessionKey) -> (r: ClaudeCodeConfig)
        ensures
            r@ == (match self@.client_config_base_dir {
                Some(base) => ClaudeView { cwd: Some(path_in(base, dirname(key@))), ..self@ },
                None => self@,
            }),
    {
        let mut cfg: ClaudeCodeConfig = self.clone();
        match self.client_dir(key) {
            Some(dir) => {
                cfg.cwd = Some(dir);
            },
            None => {},
        }
        cfg
    }
}

// ── Frames ──────────────────────────────────────────────────────────────

/// A text block.
pub open spec fn text_block(t: Seq<char>) -> json::JsonView {
    json::JsonView::Object(
        seq![
            ("type"@, json::JsonView::Str("text"@)),
            ("text"@, json::JsonView::Str(t)),
        ],
    )
}

/// An image block with inline data.
pub open spec fn image_block(mime: Seq<char>, data: Seq<char>) -> json::JsonView {
    json::JsonView::Object(
        seq![
            ("type"@, json::JsonView::Str("image"@)),
            (
                "source"@,
                json::JsonView::Object(
                    seq![
                        ("type"@, json::JsonView::Str("base64"@)),
                        ("media_type"@, json::JsonView::Str(mime)),
                        ("data"@, json::JsonView::Str(data)),
                    ],
                ),
            ),
        ],
    )
}

/// The block of an attachment. An image goes inline, with the bytes of the
/// file; anything else is named, and the agent reads it from disk.
pub open spec fn attachment_block(a: Attachment, bytes: Seq<u8>) -> json::JsonView {
    match a.kind {
        AttachmentKind::Image => image_block(a.mime@, sign::base64_text(bytes)),
        _ => text_block("[attachment: "@ + a.path@ + "]"@),
    }
}

pub fn make_text_block(t: &str) -> (r: Json)
    ensures
        r@ == text_block(t@),
{
    let m: Members = Members::new().with_str("type", "text").with_str("text", t);
    assert(m@ =~= text_block(t@)->Object_0);
    m.object()
}

/// The block of an attachment, with the bytes of the file.
pub fn serialize_attachment(att: &Attachment, bytes: &[u8]) -> (r: Json)
    ensures
        r@ == attachment_block(*att, bytes@),
{
    match att.kind {
        AttachmentKind::Image => {
            let data: String = sign::encode_base64(bytes);
            let source: Members = Members::new().with_str("type", "base64").with_str(
                "media_type",
                att.mime.as_str(),
            ).with_str("data", data.as_str());
            let ghost inner = source@;
            let m: Members = Members::new().with_str("type", "image").with(
                "source",
                source.object(),
            );
            proof {
                let want = image_block(att.mime@, data@)->Object_0;
                assert(inner =~= want[1].1->Object_0);
                assert(m@ =~= want);
            }
            m.object()
        },
        _ => make_text_block(text::concat3("[attachment: ", att.path.as_str(), "]").as_str()),
    }
}

/// The blocks of a user's turn: the prompt, unless it is empty, and those of
/// the attachments.
pub open spec fn turn_blocks(prompt: Seq<char>, blocks: Seq<json::JsonView>) -> Seq<
    json::JsonView,
> {
    if prompt.len() == 0 {
        blocks
    } else {
        seq![text_block(prompt)] + blocks
    }
}

/// The frame of a user's turn.
pub open spec fn user_frame(prompt: Seq<char>, blocks: Seq<json::JsonView>) -> json::JsonView {
    json::JsonView::Object(
        seq![
            ("type"@, json::JsonView::Str("user"@)),
            (
                "message"@,
                json::JsonView::Object(
                    seq![
                        ("role"@, json::JsonView::Str("user"@)),
                        ("content"@, json::JsonView::Array(turn_blocks(prompt, blocks))),
                    ],
                ),
            ),
        ],
    )
}

/// The frame of a user's turn, with the blocks of the attachments.
pub fn make_user_frame(prompt: &str, blocks: Vec<Json>) -> (r: Json)
    ensures
        r@ == user_frame(prompt@, json::json_views(blocks@)),
{
    let ghost given = json::json_views(blocks@);
    let mut content: Vec<Json> = Vec::new();
    if prompt.unicode_len() > 0 {
        content.push(make_text_block(prompt));
    }
    let ghost head = content@;
    let mut rest: Vec<Json> = blocks;
    let ghost tail = rest@;
    content.append(&mut rest);
    proof {
        json::lemma_json_views(head);
        json::lemma_json_views(tail);
        json::lemma_json_views(content@);
        assert(content@ =~= head + tail);
        let want = turn_blocks(prompt@, given);
        assert(json::json_views(content@) =~= want) by {
            assert forall|i: int| 0 <= i < want.len() implies json::json_views(content@)[i]
                == want[i] by {
                if i < head.len() {
                    assert(content@[i] == head[i]);
                } else {
                    assert(content@[i] == tail[i - head.len()]);
                }
            }
        }
    }
    let message: Members = Members::new().with_str("role", "user").with(
        "content",
        json::array_json(content),
    );
    let ghost inner = message@;
    let m: Members = Members::new().with_str("type", "user").with("message", message.object());
    proof {
        let want = user_frame(prompt@, given)->Object_0;
        assert(inner =~= want[1].1->Object_0);
        assert(m@ =~= want);
    }
    m.object()
}

/// The frame that answers a permission request.
pub open spec fn answer_frame(id: Seq<char>, allow: bool) -> json::JsonView {
    json::JsonView::Object(
        seq![
            ("type"@, json::JsonView::Str("control_response"@)),
            ("request_id"@, json::JsonView::Str(id)),
            (
                "response"@,
                json::JsonView::Object(seq![("approved"@, json::JsonView::Bool(allow))]),
            ),
        ],
    )
}

/// The frame that answers a permission request.
pub fn make_answer_frame(id: &str, allow: bool) -> (r: Json)
    ensures
        r@ == answer_frame(id@, allow),
{
    let response: Members = Members::new().with("approved", Json::Bool(allow));
    let ghost inner = response@;
    let m: Members = Members::new().with_str("type", "control_response").with_str(
        "request_id",
        id,
    ).with("response", response.object());
    proof {
        let want = answer_frame(id@, allow)->Object_0;
        assert(inner =~= want[2].1->Object_0);
        assert(m@ =~= want);
    }
    m.object()
}

/// The frame that interrupts the agent.
pub open spec fn interrupt_frame() -> json::JsonView {
    json::JsonView::Object(
        seq![
            ("type"@, json::JsonView::Str("control_request"@)),
            (
                "request"@,
                json::JsonView::Object(seq![("subtype"@, json::JsonView::Str("interrupt"@))]),
            ),
        ],
    )
}

/// The frame that interrupts the agent.
pub fn make_interrupt_frame() -> (r: Json)
    ensures
        r@ == interrupt_frame(),
{
    let request: Members = Members::new().with_str("subtype", "interrupt");
    let ghost inner = request@;
    let m: Members = Members::new().with_str("type", "control_request").with(
        "request",
        request.object(),
    );
    proof {
        let want = interrupt_frame()->Object_0;
        assert(inner =~= want[1].1->Object_0);
        assert(m@ =~= want);
    }
    m.object()
}

// ── Laws of the command line ────────────────────────────────────────────

/// `with` is `without` with `part` put in somewhere, at least `tail` words before
/// its end.
pub open spec fn put_in(
    with: Seq<Seq<char>>,
    without: Seq<Seq<char>>,
    part: Seq<Seq<char>>,
    tail: nat,
) -> bool {
    exists|k: int|
        0 <= k && k + tail <= without.len() && with == #[trigger] without.take(k) + part
            + without.skip(k)
}

proof fn lemma_put_in(
    a: Seq<Seq<char>>,
    part: Seq<Seq<char>>,
    b: Seq<Seq<char>>,
    with: Seq<Seq<char>>,
    without: Seq<Seq<char>>,
    tail: nat,
)
    requires
        tail <= b.len(),
        with == a + part + b,
        without == a + b,
    ensures
        put_in(with, without, part, tail),
{
    let k = a.len() as int;
    assert(without.take(k) =~= a);
    assert(without.skip(k) =~= b);
    assert(with =~= without.take(k) + part + without.skip(k));
}

proof fn lemma_regroup(x: Seq<Seq<char>>, y: Seq<Seq<char>>, z: Seq<Seq<char>>)
    ensures
        (x + y) + z == x + (y + z),
{
    assert((x + y) + z =~= x + (y + z));
}

proof fn lemma_nothing_behind(x: Seq<Seq<char>>)
    ensures
        x + Seq::<Seq<char>>::empty() == x,
{
    assert(x + Seq::<Seq<char>>::empty() =~= x);
}

proof fn lemma_skip_permissions(c: ClaudeView, resume: Option<Seq<char>>, id: Seq<char>)
    ensures
        put_in(
            spawn_line(ClaudeView { skip_permissions: true, ..c }, resume, id),
            spawn_line(ClaudeView { skip_permissions: false, ..c }, resume, id),
            seq!["--dangerously-skip-permissions"@],
            c.extra_args.len() + 2,
        ),
{
    let with = ClaudeView { skip_permissions: true, ..c };
    let without = ClaudeView { skip_permissions: false, ..c };
    let front = seq![
        "--input-format"@,
        "stream-json"@,
        "--output-format"@,
        "stream-json"@,
        "-p"@,
        "--verbose"@,
    ];
    let part = seq!["--dangerously-skip-permissions"@];
    let a = front;
    lemma_nothing_behind(a);
    let x = a + part;
    let b1 = on_flag("--include-partial-messages"@, c.include_partial_messages);
    let b2 = b1 + permission_flag(c.permission_mode);
    lemma_regroup(x, b1, permission_flag(c.permission_mode));
    lemma_regroup(a, b1, permission_flag(c.permission_mode));
    let b3 = b2 + opt_flag("--model"@, c.model);
    lemma_regroup(x, b2, opt_flag("--model"@, c.model));
    lemma_regroup(a, b2, opt_flag("--model"@, c.model));
    let b4 = b3 + opt_flag("--fallback-model"@, c.fallback_model);
    lemma_regroup(x, b3, opt_flag("--fallback-model"@, c.fallback_model));
    lemma_regroup(a, b3, opt_flag("--fallback-model"@, c.fallback_model));
    let b5 = b4 + opt_flag("--effort"@, c.effort);
    lemma_regroup(x, b4, opt_flag("--effort"@, c.effort));
    lemma_regroup(a, b4, opt_flag("--effort"@, c.effort));
    let b6 = b5 + opt_flag("--append-system-prompt"@, c.append_system_prompt);
    lemma_regroup(x, b5, opt_flag("--append-system-prompt"@, c.append_system_prompt));
    lemma_regroup(a, b5, opt_flag("--append-system-prompt"@, c.append_system_prompt));
    let b7 = b6 + opt_flag("--max-budget-usd"@, c.max_budget_usd);
    lemma_regroup(x, b6, opt_flag("--max-budget-usd"@, c.max_budget_usd));
    lemma_regroup(a, b6, opt_flag("--max-budget-usd"@, c.max_budget_usd));
    let b8 = b7 + each_flag("--add-dir"@, c.add_dirs);
    lemma_regroup(x, b7, each_flag("--add-dir"@, c.add_dirs));
    lemma_regroup(a, b7, each_flag("--add-dir"@, c.add_dirs));
    let b9 = b8 + each_flag("--mcp-config"@, c.mcp_config_files);
    lemma_regroup(x, b8, each_flag("--mcp-config"@, c.mcp_config_files));
    lemma_regroup(a, b8, each_flag("--mcp-config"@, c.mcp_config_files));
    let b10 = b9 + list_flag("--allowedTools"@, c.allowed_tools);
    lemma_regroup(x, b9, list_flag("--allowedTools"@, c.allowed_tools));
    lemma_regroup(a, b9, list_flag("--allowedTools"@, c.allowed_tools));
    let b11 = b10 + list_flag("--disallowedTools"@, c.disallowed_tools);
    lemma_regroup(x, b10, list_flag("--disallowedTools"@, c.disallowed_tools));
    lemma_regroup(a, b10, list_flag("--disallowedTools"@, c.disallowed_tools));
    let b12 = b11 + session_flag(resume, id);
    lemma_regroup(x, b11, session_flag(resume, id));
    lemma_regroup(a, b11, session_flag(resume, id));
    let b13 = b12 + c.extra_args;
    lemma_regroup(x, b12, c.extra_args);
    lemma_regroup(a, b12, c.extra_args);
    lemma_put_in(
        a,
        part,
        b13,
        spawn_line(with, resume, id),
        spawn_line(without, resume, id),
        c.extra_args.len() + 2,
    );
}

proof fn lemma_include_partial_messages(c: ClaudeView, resume: Option<Seq<char>>, id: Seq<char>)
    ensures
        put_in(
            spawn_line(ClaudeView { include_partial_messages: true, ..c }, resume, id),
            spawn_line(ClaudeView { include_partial_messages: false, ..c }, resume, id),
            seq!["--include-partial-messages"@],
            c.extra_args.len() + 2,
        ),
{
    let with = ClaudeView { include_partial_messages: true, ..c };
    let without = ClaudeView { include_partial_messages: false, ..c };
    let front = seq![
        "--input-format"@,
        "stream-json"@,
        "--output-format"@,
        "stream-json"@,
        "-p"@,
        "--verbose"@,
    ] + on_flag("--dangerously-skip-permissions"@, c.skip_permissions);
    let part = seq!["--include-partial-messages"@];
    let a = front;
    lemma_nothing_behind(a);
    let x = a + part;
    let b1 = permission_flag(c.permission_mode);
    let b2 = b1 + opt_flag("--model"@, c.model);
    lemma_regroup(x, b1, opt_flag("--model"@, c.model));
    lemma_regroup(a, b1, opt_flag("--model"@, c.model));
    let b3 = b2 + opt_flag("--fallback-model"@, c.fallback_model);
    lemma_regroup(x, b2, opt_flag("--fallback-model"@, c.fallback_model));
    lemma_regroup(a, b2, opt_flag("--fallback-model"@, c.fallback_model));
    let b4 = b3 + opt_flag("--effort"@, c.effort);
    lemma_regroup(x, b3, opt_flag("--effort"@, c.effort));
    lemma_regroup(a, b3, opt_flag("--effort"@, c.effort));
    let b5 = b4 + opt_flag("--append-system-prompt"@, c.append_system_prompt);
    lemma_regroup(x, b4, opt_flag("--append-system-prompt"@, c.append_system_prompt));
    lemma_regroup(a, b4, opt_flag("--append-system-prompt"@, c.append_system_prompt));
    let b6 = b5 + opt_flag("--max-budget-usd"@, c.max_budget_usd);
    lemma_regroup(x, b5, opt_flag("--max-budget-usd"@, c.max_budget_usd));
    lemma_regroup(a, b5, opt_flag("--max-budget-usd"@, c.max_budget_usd));
    let b7 = b6 + each_flag("--add-dir"@, c.add_dirs);
    lemma_regroup(x, b6, each_flag("--add-dir"@, c.add_dirs));
    lemma_regroup(a, b6, each_flag("--add-dir"@, c.add_dirs));
    let b8 = b7 + each_flag("--mcp-config"@, c.mcp_config_files);
    lemma_regroup(x, b7, each_flag("--mcp-config"@, c.mcp_config_files));
    lemma_regroup(a, b7, each_flag("--mcp-config"@, c.mcp_config_files));
    let b9 = b8 + list_flag("--allowedTools"@, c.allowed_tools);
    lemma_regroup(x, b8, list_flag("--allowedTools"@, c.allowed_tools));
    lemma_regroup(a, b8, list_flag("--allowedTools"@, c.allowed_tools));
    let b10 = b9 + list_flag("--disallowedTools"@, c.disallowed_tools);
    lemma_regroup(x, b9, list_flag("--disallowedTools"@, c.disallowed_tools));
    lemma_regroup(a, b9, list_flag("--disallowedTools"@, c.disallowed_tools));
    let b11 = b10 + session_flag(resume, id);
    lemma_regroup(x, b10, session_flag(resume, id));
    lemma_regroup(a, b10, session_flag(resume, id));
    let b12 = b11 + c.extra_args;
    lemma_regroup(x, b11, c.extra_args);
    lemma_regroup(a, b11, c.extra_args);
    lemma_put_in(
        a,
        part,
        b12,
        spawn_line(with, resume, id),
        spawn_line(without, resume, id),
        c.extra_args.len() + 2,
    );
}

proof fn lemma_permission_mode(c: ClaudeView, m: PermissionMode, resume: Option<Seq<char>>, id: Seq<char>)
    ensures
        put_in(
            spawn_line(ClaudeView { permission_mode: m, ..c }, resume, id),
            spawn_line(ClaudeView { permission_mode: PermissionMode::Ask, ..c }, resume, id),
            permission_flag(m),
            c.extra_args.len() + 2,
        ),
{
    let with = ClaudeView { permission_mode: m, ..c };
    let without = ClaudeView { permission_mode: PermissionMode::Ask, ..c };
    let front = seq![
        "--input-format"@,
        "stream-json"@,
        "--output-format"@,
        "stream-json"@,
        "-p"@,
        "--verbose"@,
    ] + on_flag("--dangerously-skip-permissions"@, c.skip_permissions) + on_flag("--include-partial-messages"@, c.include_partial_messages);
    let part = permission_flag(m);
    let a = front;
    lemma_nothing_behind(a);
    let x = a + part;
    let b1 = opt_flag("--model"@, c.model);
    let b2 = b1 + opt_flag("--fallback-model"@, c.fallback_model);
    lemma_regroup(x, b1, opt_flag("--fallback-model"@, c.fallback_model));
    lemma_regroup(a, b1, opt_flag("--fallback-model"@, c.fallback_model));
    let b3 = b2 + opt_flag("--effort"@, c.effort);
    lemma_regroup(x, b2, opt_flag("--effort"@, c.effort));
    lemma_regroup(a, b2, opt_flag("--effort"@, c.effort));
    let b4 = b3 + opt_flag("--append-system-prompt"@, c.append_system_prompt);
    lemma_regroup(x, b3, opt_flag("--append-system-prompt"@, c.append_system_prompt));
    lemma_regroup(a, b3, opt_flag("--append-system-prompt"@, c.append_system_prompt));
    let b5 = b4 + opt_flag("--max-budget-usd"@, c.max_budget_usd);
    lemma_regroup(x, b4, opt_flag("--max-budget-usd"@, c.max_budget_usd));
    lemma_regroup(a, b4, opt_flag("--max-budget-usd"@, c.max_budget_usd));
    let b6 = b5 + each_flag("--add-dir"@, c.add_dirs);
    lemma_regroup(x, b5, each_flag("--add-dir"@, c.add_dirs));
    lemma_regroup(a, b5, each_flag("--add-dir"@, c.add_dirs));
    let b7 = b6 + each_flag("--mcp-config"@, c.mcp_config_files);
    lemma_regroup(x, b6, each_flag("--mcp-config"@, c.mcp_config_files));
    lemma_regroup(a, b6, each_flag("--mcp-config"@, c.mcp_config_files));
    let b8 = b7 + list_flag("--allowedTools"@, c.allowed_tools);
    lemma_regroup(x, b7, list_flag("--allowedTools"@, c.allowed_tools));
    lemma_regroup(a, b7, list_flag("--allowedTools"@, c.allowed_tools));
    let b9 = b8 + list_flag("--disallowedTools"@, c.disallowed_tools);
    lemma_regroup(x, b8, list_flag("--disallowedTools"@, c.disallowed_tools));
    lemma_regroup(a, b8, list_flag("--disallowedTools"@, c.disallowed_tools));
    let b10 = b9 + session_flag(resume, id);
    lemma_regroup(x, b9, session_flag(resume, id));
    lemma_regroup(a, b9, session_flag(resume, id));
    let b11 = b10 + c.extra_args;
    lemma_regroup(x, b10, c.extra_args);
    lemma_regroup(a, b10, c.extra_args);
    lemma_put_in(
        a,
        part,
        b11,
        spawn_line(with, resume, id),
        spawn_line(without, resume, id),
        c.extra_args.len() + 2,
    );
}

proof fn lemma_model(c: ClaudeView, v: Seq<char>, resume: Option<Seq<char>>, id: Seq<char>)
    ensures
        put_in(
            spawn_line(ClaudeView { model: Some(v), ..c }, resume, id),
            spawn_line(ClaudeView { model: None, ..c }, resume, id),
            seq!["--model"@, v],
            c.extra_args.len() + 2,
        ),
{
    let with = ClaudeView { model: Some(v), ..c };
    let without = ClaudeView { model: None, ..c };
    let front = seq![
        "--input-format"@,
        "stream-json"@,
        "--output-format"@,
        "stream-json"@,
        "-p"@,
        "--verbose"@,
    ] + on_flag("--dangerously-skip-permissions"@, c.skip_permissions) + on_flag("--include-partial-messages"@, c.include_partial_messages) + permission_flag(c.permission_mode);
    let part = seq!["--model"@, v];
    let a = front;
    lemma_nothing_behind(a);
    let x = a + part;
    let b1 = opt_flag("--fallback-model"@, c.fallback_model);
    let b2 = b1 + opt_flag("--effort"@, c.effort);
    lemma_regroup(x, b1, opt_flag("--effort"@, c.effort));
    lemma_regroup(a, b1, opt_flag("--effort"@, c.effort));
    let b3 = b2 + opt_flag("--append-system-prompt"@, c.append_system_prompt);
    lemma_regroup(x, b2, opt_flag("--append-system-prompt"@, c.append_system_prompt));
    lemma_regroup(a, b2, opt_flag("--append-system-prompt"@, c.append_system_prompt));
    let b4 = b3 + opt_flag("--max-budget-usd"@, c.max_budget_usd);
    lemma_regroup(x, b3, opt_flag("--max-budget-usd"@, c.max_budget_usd));
    lemma_regroup(a, b3, opt_flag("--max-budget-usd"@, c.max_budget_usd));
    let b5 = b4 + each_flag("--add-dir"@, c.add_dirs);
    lemma_regroup(x, b4, each_flag("--add-dir"@, c.add_dirs));
    lemma_regroup(a, b4, each_flag("--add-dir"@, c.add_dirs));
    let b6 = b5 + each_flag("--mcp-config"@, c.mcp_config_files);
    lemma_regroup(x, b5, each_flag("--mcp-config"@, c.mcp_config_files));
    lemma_regroup(a, b5, each_flag("--mcp-config"@, c.mcp_config_files));
    let b7 = b6 + list_flag("--allowedTools"@, c.allowed_tools);
    lemma_regroup(x, b6, list_flag("--allowedTools"@, c.allowed_tools));
    lemma_regroup(a, b6, list_flag("--allowedTools"@, c.allowed_tools));
    let b8 = b7 + list_flag("--disallowedTools"@, c.disallowed_tools);
    lemma_regroup(x, b7, list_flag("--disallowedTools"@, c.disallowed_tools));
    lemma_regroup(a, b7, list_flag("--disallowedTools"@, c.disallowed_tools));
    let b9 = b8 + session_flag(resume, id);
    lemma_regroup(x, b8, session_flag(resume, id));
    lemma_regroup(a, b8, session_flag(resume, id));
    let b10 = b9 + c.extra_args;
    lemma_regroup(x, b9, c.extra_args);
    lemma_regroup(a, b9, c.extra_args);
    lemma_put_in(
        a,
        part,
        b10,
        spawn_line(with, resume, id),
        spawn_line(without, resume, id),
        c.extra_args.len() + 2,
    );
}

proof fn lemma_fallback_model(c: ClaudeView, v: Seq<char>, resume: Option<Seq<char>>, id: Seq<char>)
    ensures
        put_in(
            spawn_line(ClaudeView { fallback_model: Some(v), ..c }, resume, id),
            spawn_line(ClaudeView { fallback_model: None, ..c }, resume, id),
            seq!["--fallback-model"@, v],
            c.extra_args.len() + 2,
        ),
{
    let with = ClaudeView { fallback_model: Some(v), ..c };
    let without = ClaudeView { fallback_model: None, ..c };
    let front = seq![
        "--input-format"@,
        "stream-json"@,
        "--output-format"@,
        "stream-json"@,
        "-p"@,
        "--verbose"@,
    ] + on_flag("--dangerously-skip-permissions"@, c.skip_permissions) + on_flag("--include-partial-messages"@, c.include_partial_messages) + permission_flag(c.permission_mode) + opt_flag("--model"@, c.model);
    let part = seq!["--fallback-model"@, v];
    let a = front;
    lemma_nothing_behind(a);
    let x = a + part;
    let b1 = opt_flag("--effort"@, c.effort);
    let b2 = b1 + opt_flag("--append-system-prompt"@, c.append_system_prompt);
    lemma_regroup(x, b1, opt_flag("--append-system-prompt"@, c.append_system_prompt));
    lemma_regroup(a, b1, opt_flag("--append-system-prompt"@, c.append_system_prompt));
    let b3 = b2 + opt_flag("--max-budget-usd"@, c.max_budget_usd);
    lemma_regroup(x, b2, opt_flag("--max-budget-usd"@, c.max_budget_usd));
    lemma_regroup(a, b2, opt_flag("--max-budget-usd"@, c.max_budget_usd));
    let b4 = b3 + each_flag("--add-dir"@, c.add_dirs);
    lemma_regroup(x, b3, each_flag("--add-dir"@, c.add_dirs));
    lemma_regroup(a, b3, each_flag("--add-dir"@, c.add_dirs));
    let b5 = b4 + each_flag("--mcp-config"@, c.mcp_config_files);
    lemma_regroup(x, b4, each_flag("--mcp-config"@, c.mcp_config_files));
    lemma_regroup(a, b4, each_flag("--mcp-config"@, c.mcp_config_files));
    let b6 = b5 + list_flag("--allowedTools"@, c.allowed_tools);
    lemma_regroup(x, b5, list_flag("--allowedTools"@, c.allowed_tools));
    lemma_regroup(a, b5, list_flag("--allowedTools"@, c.allowed_tools));
    let b7 = b6 + list_flag("--disallowedTools"@, c.disallowed_tools);
    lemma_regroup(x, b6, list_flag("--disallowedTools"@, c.disallowed_tools));
    lemma_regroup(a, b6, list_flag("--disallowedTools"@, c.disallowed_tools));
    let b8 = b7 + session_flag(resume, id);
    lemma_regroup(x, b7, session_flag(resume, id));
    lemma_regroup(a, b7, session_flag(resume, id));
    let b9 = b8 + c.extra_args;
    lemma_regroup(x, b8, c.extra_args);
    lemma_regroup(a, b8, c.extra_args);
    lemma_put_in(
        a,
        part,
        b9,
        spawn_line(with, resume, id),
        spawn_line(without, resume, id),
        c.extra_args.len() + 2,
    );
}

proof fn lemma_effort(c: ClaudeView, v: Seq<char>, resume: Option<Seq<char>>, id: Seq<char>)
    ensures
        put_in(
            spawn_line(ClaudeView { effort: Some(v), ..c }, resume, id),
            spawn_line(ClaudeView { effort: None, ..c }, resume, id),
            seq!["--effort"@, v],
            c.extra_args.len() + 2,
        ),
{
    let with = ClaudeView { effort: Some(v), ..c };
    let without = ClaudeView { effort: None, ..c };
    let front = seq![
        "--input-format"@,
        "stream-json"@,
        "--output-format"@,
        "stream-json"@,
        "-p"@,
        "--verbose"@,
    ] + on_flag("--dangerously-skip-permissions"@, c.skip_permissions) + on_flag("--include-partial-messages"@, c.include_partial_messages) + permission_flag(c.permission_mode) + opt_flag("--model"@, c.model) + opt_flag("--fallback-model"@, c.fallback_model);
    let part = seq!["--effort"@, v];
    let a = front;
    lemma_nothing_behind(a);
    let x = a + part;
    let b1 = opt_flag("--append-system-prompt"@, c.append_system_prompt);
    let b2 = b1 + opt_flag("--max-budget-usd"@, c.max_budget_usd);
    lemma_regroup(x, b1, opt_flag("--max-budget-usd"@, c.max_budget_usd));
    lemma_regroup(a, b1, opt_flag("--max-budget-usd"@, c.max_budget_usd));
    let b3 = b2 + each_flag("--add-dir"@, c.add_dirs);
    lemma_regroup(x, b2, each_flag("--add-dir"@, c.add_dirs));
    lemma_regroup(a, b2, each_flag("--add-dir"@, c.add_dirs));
    let b4 = b3 + each_flag("--mcp-config"@, c.mcp_config_files);
    lemma_regroup(x, b3, each_flag("--mcp-config"@, c.mcp_config_files));
    lemma_regroup(a, b3, each_flag("--mcp-config"@, c.mcp_config_files));
    let b5 = b4 + list_flag("--allowedTools"@, c.allowed_tools);
    lemma_regroup(x, b4, list_flag("--allowedTools"@, c.allowed_tools));
    lemma_regroup(a, b4, list_flag("--allowedTools"@, c.allowed_tools));
    let b6 = b5 + list_flag("--disallowedTools"@, c.disallowed_tools);
    lemma_regroup(x, b5, list_flag("--disallowedTools"@, c.disallowed_tools));
    lemma_regroup(a, b5, list_flag("--disallowedTools"@, c.disallowed_tools));
    let b7 = b6 + session_flag(resume, id);
    lemma_regroup(x, b6, session_flag(resume, id));
    lemma_regroup(a, b6, session_flag(resume, id));
    let b8 = b7 + c.extra_args;
    lemma_regroup(x, b7, c.extra_args);
    lemma_regroup(a, b7, c.extra_args);
    lemma_put_in(
        a,
        part,
        b8,
        spawn_line(with, resume, id),
        spawn_line(without, resume, id),
        c.extra_args.len() + 2,
    );
}

proof fn lemma_append_system_prompt(c: ClaudeView, v: Seq<char>, resume: Option<Seq<char>>, id: Seq<char>)
    ensures
        put_in(
            spawn_line(ClaudeView { append_system_prompt: Some(v), ..c }, resume, id),
            spawn_line(ClaudeView { append_system_prompt: None, ..c }, resume, id),
            seq!["--append-system-prompt"@, v],
            c.extra_args.len() + 2,
        ),
{
    let with = ClaudeView { append_system_prompt: Some(v), ..c };
    let without = ClaudeView { append_system_prompt: None, ..c };
    let front = seq![
        "--input-format"@,
        "stream-json"@,
        "--output-format"@,
        "stream-json"@,
        "-p"@,
        "--verbose"@,
    ] + on_flag("--dangerously-skip-permissions"@, c.skip_permissions) + on_flag("--include-partial-messages"@, c.include_partial_messages) + permission_flag(c.permission_mode) + opt_flag("--model"@, c.model) + opt_flag("--fallback-model"@, c.fallback_model) + opt_flag("--effort"@, c.effort);
    let part = seq!["--append-system-prompt"@, v];
    let a = front;
    lemma_nothing_behind(a);
    let x = a + part;
    let b1 = opt_flag("--max-budget-usd"@, c.max_budget_usd);
    let b2 = b1 + each_flag("--add-dir"@, c.add_dirs);
    lemma_regroup(x, b1, each_flag("--add-dir"@, c.add_dirs));
    lemma_regroup(a, b1, each_flag("--add-dir"@, c.add_dirs));
    let b3 = b2 + each_flag("--mcp-config"@, c.mcp_config_files);
    lemma_regroup(x, b2, each_flag("--mcp-config"@, c.mcp_config_files));
    lemma_regroup(a, b2, each_flag("--mcp-config"@, c.mcp_config_files));
    let b4 = b3 + list_flag("--allowedTools"@, c.allowed_tools);
    lemma_regroup(x, b3, list_flag("--allowedTools"@, c.allowed_tools));
    lemma_regroup(a, b3, list_flag("--allowedTools"@, c.allowed_tools));
    let b5 = b4 + list_flag("--disallowedTools"@, c.disallowed_tools);
    lemma_regroup(x, b4, list_flag("--disallowedTools"@, c.disallowed_tools));
    lemma_regroup(a, b4, list_flag("--disallowedTools"@, c.disallowed_tools));
    let b6 = b5 + session_flag(resume, id);
    lemma_regroup(x, b5, session_flag(resume, id));
    lemma_regroup(a, b5, session_flag(resume, id));
    let b7 = b6 + c.extra_args;
    lemma_regroup(x, b6, c.extra_args);
    lemma_regroup(a, b6, c.extra_args);
    lemma_put_in(
        a,
        part,
        b7,
        spawn_line(with, resume, id),
        spawn_line(without, resume, id),
        c.extra_args.len() + 2,
    );
}

proof fn lemma_max_budget_usd(c: ClaudeView, v: Seq<char>, resume: Option<Seq<char>>, id: Seq<char>)
    ensures
        put_in(
            spawn_line(ClaudeView { max_budget_usd: Some(v), ..c }, resume, id),
            spawn_line(ClaudeView { max_budget_usd: None, ..c }, resume, id),
            seq!["--max-budget-usd"@, v],
            c.extra_args.len() + 2,
        ),
{
    let with = ClaudeView { max_budget_usd: Some(v), ..c };
    let without = ClaudeView { max_budget_usd: None, ..c };
    let front = seq![
        "--input-format"@,
        "stream-json"@,
        "--output-format"@,
        "stream-json"@,
        "-p"@,
        "--verbose"@,
    ] + on_flag("--dangerously-skip-permissions"@, c.skip_permissions) + on_flag("--include-partial-messages"@, c.include_partial_messages) + permission_flag(c.permission_mode) + opt_flag("--model"@, c.model) + opt_flag("--fallback-model"@, c.fallback_model) + opt_flag("--effort"@, c.effort) + opt_flag("--append-system-prompt"@, c.append_system_prompt);
    let part = seq!["--max-budget-usd"@, v];
    let a = front;
    lemma_nothing_behind(a);
    let x = a + part;
    let b1 = each_flag("--add-dir"@, c.add_dirs);
    let b2 = b1 + each_flag("--mcp-config"@, c.mcp_config_files);
    lemma_regroup(x, b1, each_flag("--mcp-config"@, c.mcp_config_files));
    lemma_regroup(a, b1, each_flag("--mcp-config"@, c.mcp_config_files));
    let b3 = b2 + list_flag("--allowedTools"@, c.allowed_tools);
    lemma_regroup(x, b2, list_flag("--allowedTools"@, c.allowed_tools));
    lemma_regroup(a, b2, list_flag("--allowedTools"@, c.allowed_tools));
    let b4 = b3 + list_flag("--disallowedTools"@, c.disallowed_tools);
    lemma_regroup(x, b3, list_flag("--disallowedTools"@, c.disallowed_tools));
    lemma_regroup(a, b3, list_flag("--disallowedTools"@, c.disallowed_tools));
    let b5 = b4 + session_flag(resume, id);
    lemma_regroup(x, b4, session_flag(resume, id));
    lemma_regroup(a, b4, session_flag(resume, id));
    let b6 = b5 + c.extra_args;
    lemma_regroup(x, b5, c.extra_args);
    lemma_regroup(a, b5, c.extra_args);
    lemma_put_in(
        a,
        part,
        b6,
        spawn_line(with, resume, id),
        spawn_line(without, resume, id),
        c.extra_args.len() + 2,
    );
}

proof fn lemma_add_dirs(c: ClaudeView, v: Seq<char>, resume: Option<Seq<char>>, id: Seq<char>)
    ensures
        put_in(
            spawn_line(ClaudeView { add_dirs: c.add_dirs.push(v), ..c }, resume, id),
            spawn_line(c, resume, id),
            seq!["--add-dir"@, v],
            c.extra_args.len() + 2,
        ),
{
    let with = ClaudeView { add_dirs: c.add_dirs.push(v), ..c };
    let without = c;
    let front = seq![
        "--input-format"@,
        "stream-json"@,
        "--output-format"@,
        "stream-json"@,
        "-p"@,
        "--verbose"@,
    ] + on_flag("--dangerously-skip-permissions"@, c.skip_permissions) + on_flag("--include-partial-messages"@, c.include_partial_messages) + permission_flag(c.permission_mode) + opt_flag("--model"@, c.model) + opt_flag("--fallback-model"@, c.fallback_model) + opt_flag("--effort"@, c.effort) + opt_flag("--append-system-prompt"@, c.append_system_prompt) + opt_flag("--max-budget-usd"@, c.max_budget_usd);
    let part = seq!["--add-dir"@, v];
    let a = front + each_flag("--add-dir"@, c.add_dirs);
    assert(with.add_dirs.drop_last() =~= c.add_dirs);
    lemma_regroup(front, each_flag("--add-dir"@, c.add_dirs), part);
    let x = a + part;
    let b1 = each_flag("--mcp-config"@, c.mcp_config_files);
    let b2 = b1 + list_flag("--allowedTools"@, c.allowed_tools);
    lemma_regroup(x, b1, list_flag("--allowedTools"@, c.allowed_tools));
    lemma_regroup(a, b1, list_flag("--allowedTools"@, c.allowed_tools));
    let b3 = b2 + list_flag("--disallowedTools"@, c.disallowed_tools);
    lemma_regroup(x, b2, list_flag("--disallowedTools"@, c.disallowed_tools));
    lemma_regroup(a, b2, list_flag("--disallowedTools"@, c.disallowed_tools));
    let b4 = b3 + session_flag(resume, id);
    lemma_regroup(x, b3, session_flag(resume, id));
    lemma_regroup(a, b3, session_flag(resume, id));
    let b5 = b4 + c.extra_args;
    lemma_regroup(x, b4, c.extra_args);
    lemma_regroup(a, b4, c.extra_args);
    lemma_put_in(
        a,
        part,
        b5,
        spawn_line(with, resume, id),
        spawn_line(without, resume, id),
        c.extra_args.len() + 2,
    );
}

proof fn lemma_mcp_config_files(c: ClaudeView, v: Seq<char>, resume: Option<Seq<char>>, id: Seq<char>)
    ensures
        put_in(
            spawn_line(ClaudeView { mcp_config_files: c.mcp_config_files.push(v), ..c }, resume, id),
            spawn_line(c, resume, id),
            seq!["--mcp-config"@, v],
            c.extra_args.len() + 2,
        ),
{
    let with = ClaudeView { mcp_config_files: c.mcp_config_files.push(v), ..c };
    let without = c;
    let front = seq![
        "--input-format"@,
        "stream-json"@,
        "--output-format"@,
        "stream-json"@,
        "-p"@,
        "--verbose"@,
    ] + on_flag("--dangerously-skip-permissions"@, c.skip_permissions) + on_flag("--include-partial-messages"@, c.include_partial_messages) + permission_flag(c.permission_mode) + opt_flag("--model"@, c.model) + opt_flag("--fallback-model"@, c.fallback_model) + opt_flag("--effort"@, c.effort) + opt_flag("--append-system-prompt"@, c.append_system_prompt) + opt_flag("--max-budget-usd"@, c.max_budget_usd) + each_flag("--add-dir"@, c.add_dirs);
    let part = seq!["--mcp-config"@, v];
    let a = front + each_flag("--mcp-config"@, c.mcp_config_files);
    assert(with.mcp_config_files.drop_last() =~= c.mcp_config_files);
    lemma_regroup(front, each_flag("--mcp-config"@, c.mcp_config_files), part);
    let x = a + part;
    let b1 = list_flag("--allowedTools"@, c.allowed_tools);
    let b2 = b1 + list_flag("--disallowedTools"@, c.disallowed_tools);
    lemma_regroup(x, b1, list_flag("--disallowedTools"@, c.disallowed_tools));
    lemma_regroup(a, b1, list_flag("--disallowedTools"@, c.disallowed_tools));
    let b3 = b2 + session_flag(resume, id);
    lemma_regroup(x, b2, session_flag(resume, id));
    lemma_regroup(a, b2, session_flag(resume, id));
    let b4 = b3 + c.extra_args;
    lemma_regroup(x, b3, c.extra_args);
    lemma_regroup(a, b3, c.extra_args);
    lemma_put_in(
        a,
        part,
        b4,
        spawn_line(with, resume, id),
        spawn_line(without, resume, id),
        c.extra_args.len() + 2,
    );
}

proof fn lemma_allowed_tools(c: ClaudeView, v: Seq<Seq<char>>, resume: Option<Seq<char>>, id: Seq<char>)
    requires
        v.len() > 0,
    ensures
        put_in(
            spawn_line(ClaudeView { allowed_tools: v, ..c }, resume, id),
            spawn_line(ClaudeView { allowed_tools: Seq::empty(), ..c }, resume, id),
            seq!["--allowedTools"@] + v,
            c.extra_args.len() + 2,
        ),
{
    let with = ClaudeView { allowed_tools: v, ..c };
    let without = ClaudeView { allowed_tools: Seq::empty(), ..c };
    let front = seq![
        "--input-format"@,
        "stream-json"@,
        "--output-format"@,
        "stream-json"@,
        "-p"@,
        "--verbose"@,
    ] + on_flag("--dangerously-skip-permissions"@, c.skip_permissions) + on_flag("--include-partial-messages"@, c.include_partial_messages) + permission_flag(c.permission_mode) + opt_flag("--model"@, c.model) + opt_flag("--fallback-model"@, c.fallback_model) + opt_flag("--effort"@, c.effort) + opt_flag("--append-system-prompt"@, c.append_system_prompt) + opt_flag("--max-budget-usd"@, c.max_budget_usd) + each_flag("--add-dir"@, c.add_dirs) + each_flag("--mcp-config"@, c.mcp_config_files);
    let part = seq!["--allowedTools"@] + v;
    let a = front;
    lemma_nothing_behind(a);
    let x = a + part;
    let b1 = list_flag("--disallowedTools"@, c.disallowed_tools);
    let b2 = b1 + session_flag(resume, id);
    lemma_regroup(x, b1, session_flag(resume, id));
    lemma_regroup(a, b1, session_flag(resume, id));
    let b3 = b2 + c.extra_args;
    lemma_regroup(x, b2, c.extra_args);
    lemma_regroup(a, b2, c.extra_args);
    lemma_put_in(
        a,
        part,
        b3,
        spawn_line(with, resume, id),
        spawn_line(without, resume, id),
        c.extra_args.len() + 2,
    );
}

proof fn lemma_disallowed_tools(c: ClaudeView, v: Seq<Seq<char>>, resume: Option<Seq<char>>, id: Seq<char>)
    requires
        v.len() > 0,
    ensures
        put_in(
            spawn_line(ClaudeView { disallowed_tools: v, ..c }, resume, id),
            spawn_line(ClaudeView { disallowed_tools: Seq::empty(), ..c }, resume, id),
            seq!["--disallowedTools"@] + v,
            c.extra_args.len() + 2,
        ),
{
    let with = ClaudeView { disallowed_tools: v, ..c };
    let without = ClaudeView { disallowed_tools: Seq::empty(), ..c };
    let front = seq![
        "--input-format"@,
        "stream-json"@,
        "--output-format"@,
        "stream-json"@,
        "-p"@,
        "--verbose"@,
    ] + on_flag("--dangerously-skip-permissions"@, c.skip_permissions) + on_flag("--include-partial-messages"@, c.include_partial_messages) + permission_flag(c.permission_mode) + opt_flag("--model"@, c.model) + opt_flag("--fallback-model"@, c.fallback_model) + opt_flag("--effort"@, c.effort) + opt_flag("--append-system-prompt"@, c.append_system_prompt) + opt_flag("--max-budget-usd"@, c.max_budget_usd) + each_flag("--add-dir"@, c.add_dirs) + each_flag("--mcp-config"@, c.mcp_config_files) + list_flag("--allowedTools"@, c.allowed_tools);
    let part = seq!["--disallowedTools"@] + v;
    let a = front;
    lemma_nothing_behind(a);
    let x = a + part;
    let b1 = session_flag(resume, id);
    let b2 = b1 + c.extra_args;
    lemma_regroup(x, b1, c.extra_args);
    lemma_regroup(a, b1, c.extra_args);
    lemma_put_in(
        a,
        part,
        b2,
        spawn_line(with, resume, id),
        spawn_line(without, resume, id),
        c.extra_args.len() + 2,
    );
}

/// Each configured option puts its own flag and its own value on the command line,
/// next to each other and before the session is named, and changes nothing else;
/// one that is not configured puts nothing there.
pub proof fn options_stand_behind_their_flags(
    c: ClaudeView,
    v: Seq<char>,
    resume: Option<Seq<char>>,
    id: Seq<char>,
)
    ensures
        put_in(
            spawn_line(ClaudeView { model: Some(v), ..c }, resume, id),
            spawn_line(ClaudeView { model: None, ..c }, resume, id),
            seq!["--model"@, v],
            c.extra_args.len() + 2,
        ),
        put_in(
            spawn_line(ClaudeView { fallback_model: Some(v), ..c }, resume, id),
            spawn_line(ClaudeView { fallback_model: None, ..c }, resume, id),
            seq!["--fallback-model"@, v],
            c.extra_args.len() + 2,
        ),
        put_in(
            spawn_line(ClaudeView { effort: Some(v), ..c }, resume, id),
            spawn_line(ClaudeView { effort: None, ..c }, resume, id),
            seq!["--effort"@, v],
            c.extra_args.len() + 2,
        ),
        put_in(
            spawn_line(ClaudeView { append_system_prompt: Some(v), ..c }, resume, id),
            spawn_line(ClaudeView { append_system_prompt: None, ..c }, resume, id),
            seq!["--append-system-prompt"@, v],
            c.extra_args.len() + 2,
        ),
        put_in(
            spawn_line(ClaudeView { max_budget_usd: Some(v), ..c }, resume, id),
            spawn_line(ClaudeView { max_budget_usd: None, ..c }, resume, id),
            seq!["--max-budget-usd"@, v],
            c.extra_args.len() + 2,
        ),
{
    lemma_model(c, v, resume, id);
    lemma_fallback_model(c, v, resume, id);
    lemma_effort(c, v, resume, id);
    lemma_append_system_prompt(c, v, resume, id);
    lemma_max_budget_usd(c, v, resume, id);
}

/// Each directory and each server file comes behind a flag of its own; the tools
/// come as a list behind one flag.
pub proof fn lists_stand_behind_their_flags(
    c: ClaudeView,
    v: Seq<char>,
    tools: Seq<Seq<char>>,
    resume: Option<Seq<char>>,
    id: Seq<char>,
)
    requires
        tools.len() > 0,
    ensures
        put_in(
            spawn_line(ClaudeView { add_dirs: c.add_dirs.push(v), ..c }, resume, id),
            spawn_line(c, resume, id),
            seq!["--add-dir"@, v],
            c.extra_args.len() + 2,
        ),
        put_in(
            spawn_line(ClaudeView { mcp_config_files: c.mcp_config_files.push(v), ..c }, resume, id),
            spawn_line(c, resume, id),
            seq!["--mcp-config"@, v],
            c.extra_args.len() + 2,
        ),
        put_in(
            spawn_line(ClaudeView { allowed_tools: tools, ..c }, resume, id),
            spawn_line(ClaudeView { allowed_tools: Seq::empty(), ..c }, resume, id),
            seq!["--allowedTools"@] + tools,
            c.extra_args.len() + 2,
        ),
        put_in(
            spawn_line(ClaudeView { disallowed_tools: tools, ..c }, resume, id),
            spawn_line(ClaudeView { disallowed_tools: Seq::empty(), ..c }, resume, id),
            seq!["--disallowedTools"@] + tools,
            c.extra_args.len() + 2,
        ),
{
    lemma_add_dirs(c, v, resume, id);
    lemma_mcp_config_files(c, v, resume, id);
    lemma_allowed_tools(c, tools, resume, id);
    lemma_disallowed_tools(c, tools, resume, id);
}

/// Each switch that is on puts its flag on the command line.
pub proof fn switches_are_flags(c: ClaudeView, resume: Option<Seq<char>>, id: Seq<char>)
    ensures
        put_in(
            spawn_line(ClaudeView { skip_permissions: true, ..c }, resume, id),
            spawn_line(ClaudeView { skip_permissions: false, ..c }, resume, id),
            seq!["--dangerously-skip-permissions"@],
            c.extra_args.len() + 2,
        ),
        put_in(
            spawn_line(ClaudeView { include_partial_messages: true, ..c }, resume, id),
            spawn_line(ClaudeView { include_partial_messages: false, ..c }, resume, id),
            seq!["--include-partial-messages"@],
            c.extra_args.len() + 2,
        ),
        put_in(
            spawn_line(ClaudeView { permission_mode: PermissionMode::AcceptEdits, ..c }, resume, id),
            spawn_line(ClaudeView { permission_mode: PermissionMode::Ask, ..c }, resume, id),
            seq!["--permission-mode"@, "acceptEdits"@],
            c.extra_args.len() + 2,
        ),
        put_in(
            spawn_line(ClaudeView { permission_mode: PermissionMode::BypassPermissions, ..c }, resume, id),
            spawn_line(ClaudeView { permission_mode: PermissionMode::Ask, ..c }, resume, id),
            seq!["--permission-mode"@, "bypassPermissions"@],
            c.extra_args.len() + 2,
        ),
{
    lemma_skip_permissions(c, resume, id);
    lemma_include_partial_messages(c, resume, id);
    lemma_permission_mode(c, PermissionMode::AcceptEdits, resume, id);
    lemma_permission_mode(c, PermissionMode::BypassPermissions, resume, id);
}

/// With nothing configured the agent is asked for one run that reads and writes
/// frames. In any case the session is named behind the options, by the id to resume
/// or else by the new one, and the extra arguments come last.
pub proof fn command_line_ends_with_the_session(
    c: ClaudeView,
    resume: Seq<char>,
    id: Seq<char>,
)
    ensures
        ({
            let line = spawn_line(c, None, id);
            let at = line.len() - c.extra_args.len() - 2;
            &&& at >= 6
            &&& line.skip(at) == seq!["--session-id"@, id] + c.extra_args
            &&& spawn_line(c, Some(resume), id) == line.take(at) + seq!["--resume"@, resume]
                + c.extra_args
        }),
        spawn_line(
            ClaudeView { skip_permissions: false, include_partial_messages: false, ..default_config(
                c.binary,
            ) },
            None,
            id,
        ) == seq![
            "--input-format"@,
            "stream-json"@,
            "--output-format"@,
            "stream-json"@,
            "-p"@,
            "--verbose"@,
            "--session-id"@,
            id,
        ],
{
    let line = spawn_line(c, None, id);
    let at = options(c).len() as int;
    assert(line.take(at) =~= options(c));
    assert(line.skip(at) =~= seq!["--session-id"@, id] + c.extra_args);
    assert(spawn_line(c, Some(resume), id) =~= line.take(at) + seq!["--resume"@, resume]
        + c.extra_args);
    let plain = ClaudeView {
        skip_permissions: false,
        include_partial_messages: false,
        ..default_config(c.binary)
    };
    assert(spawn_line(plain, None, id) =~= seq![
        "--input-format"@,
        "stream-json"@,
        "--output-format"@,
        "stream-json"@,
        "-p"@,
        "--verbose"@,
        "--session-id"@,
        id,
    ]);
}

/// An agent that is configured by its program alone runs without asking for
/// permission and sends partial messages; nothing else is set.
pub proof fn default_agent_is_plain(binary: Seq<char>)
    ensures
        ({
            let c = default_config(binary);
            &&& c.binary == binary
            &&& c.skip_permissions
            &&& c.include_partial_messages
            &&& c.permission_mode == PermissionMode::Ask
            &&& c.inline_image_max_bytes == 256 * 1024
            &&& c.model is None && c.fallback_model is None && c.effort is None
            &&& c.append_system_prompt is None && c.max_budget_usd is None && c.cwd is None
            &&& c.session_id is None && c.client_config_base_dir is None
            &&& c.extra_args.len() == 0 && c.add_dirs.len() == 0
            &&& c.mcp_config_files.len() == 0 && c.allowed_tools.len() == 0
            &&& c.disallowed_tools.len() == 0
        }),
{
}

/// The id of a session: the configured one, else the one to resume, else a new one.
pub proof fn configured_session_id_wins(a: Seq<char>, b: Seq<char>, resume: Option<Seq<char>>, fresh: Seq<char>)
    ensures
        chosen_id(Some(a), resume, fresh) == a,
        chosen_id(None, Some(b), fresh) == b,
        chosen_id(None, None, fresh) == fresh,
{
}

proof fn lemma_override_names()
    ensures
        "model"@.len() == 5,
        "fallback_model"@.len() == 14,
        "effort"@.len() == 6,
        "budget"@.len() == 6,
        "effort"@[0] == 'e',
        "budget"@[0] == 'b',
        "append_system_prompt"@.len() == 20,
        "add_dir"@.len() == 7,
        "clear_dirs"@.len() == 10,
        "allow_tool"@.len() == 10,
        "clear_dirs"@[0] == 'c',
        "allow_tool"@[0] == 'a',
        "deny_tool"@.len() == 9,
        "clear_tools"@.len() == 11,
{
    reveal_strlit("model");
    reveal_strlit("fallback_model");
    reveal_strlit("effort");
    reveal_strlit("budget");
    reveal_strlit("append_system_prompt");
    reveal_strlit("add_dir");
    reveal_strlit("clear_dirs");
    reveal_strlit("allow_tool");
    reveal_strlit("deny_tool");
    reveal_strlit("clear_tools");
}

/// Each override sets the setting that it names and leaves the others as they are;
/// an empty value takes a setting back.
pub proof fn overrides_set_what_they_name(c: ClaudeView, v: Seq<char>, usd: Amount, t: String)
    requires
        v.len() > 0,
    ensures
        overridden(c, "model"@, v, usd) == Ok::<ClaudeView, Seq<char>>(
            ClaudeView { model: Some(v), ..c },
        ),
        overridden(c, "fallback_model"@, v, usd) == Ok::<ClaudeView, Seq<char>>(
            ClaudeView { fallback_model: Some(v), ..c },
        ),
        overridden(c, "append_system_prompt"@, v, usd) == Ok::<ClaudeView, Seq<char>>(
            ClaudeView { append_system_prompt: Some(v), ..c },
        ),
        overridden(c, "model"@, Seq::empty(), usd) == Ok::<ClaudeView, Seq<char>>(
            ClaudeView { model: None, ..c },
        ),
        overridden(c, "fallback_model"@, Seq::empty(), usd) == Ok::<ClaudeView, Seq<char>>(
            ClaudeView { fallback_model: None, ..c },
        ),
        overridden(c, "append_system_prompt"@, Seq::empty(), usd) == Ok::<ClaudeView, Seq<char>>(
            ClaudeView { append_system_prompt: None, ..c },
        ),
        overridden(c, "effort"@, Seq::empty(), usd) == Ok::<ClaudeView, Seq<char>>(
            ClaudeView { effort: None, ..c },
        ),
        v == "low"@ || v == "medium"@ || v == "high"@ || v == "xhigh"@ || v == "max"@
            ==> overridden(c, "effort"@, v, usd) == Ok::<ClaudeView, Seq<char>>(
            ClaudeView { effort: Some(v), ..c },
        ),
        !(v == "low"@ || v == "medium"@ || v == "high"@ || v == "xhigh"@ || v == "max"@)
            ==> overridden(c, "effort"@, v, usd) is Err,
        overridden(c, "budget"@, v, Amount::Positive(t)) == Ok::<ClaudeView, Seq<char>>(
            ClaudeView { max_budget_usd: Some(t@), ..c },
        ),
        overridden(c, "budget"@, v, Amount::NotPositive) == Ok::<ClaudeView, Seq<char>>(
            ClaudeView { max_budget_usd: None, ..c },
        ),
        overridden(c, "budget"@, v, Amount::NotANumber) is Err,
        overridden(c, "add_dir"@, v, usd) == Ok::<ClaudeView, Seq<char>>(
            ClaudeView { add_dirs: c.add_dirs.push(v), ..c },
        ),
        overridden(c, "clear_dirs"@, v, usd) == Ok::<ClaudeView, Seq<char>>(
            ClaudeView { add_dirs: Seq::empty(), ..c },
        ),
        overridden(c, "allow_tool"@, v, usd) == Ok::<ClaudeView, Seq<char>>(
            ClaudeView { allowed_tools: c.allowed_tools.push(v), ..c },
        ),
        overridden(c, "deny_tool"@, v, usd) == Ok::<ClaudeView, Seq<char>>(
            ClaudeView { disallowed_tools: c.disallowed_tools.push(v), ..c },
        ),
        overridden(c, "clear_tools"@, v, usd) == Ok::<ClaudeView, Seq<char>>(
            ClaudeView { allowed_tools: Seq::empty(), disallowed_tools: Seq::empty(), ..c },
        ),
{
    lemma_override_names();
}

/// The prompt of a turn goes to the agent whole, in front of the attachments, and
/// an empty prompt is left out.
pub proof fn turns_carry_prompt_and_attachments(
    prompt: Seq<char>,
    blocks: Seq<json::JsonView>,
)
    requires
        prompt.len() > 0,
    ensures
        user_frame(prompt, blocks) matches json::JsonView::Object(m) && m.len() == 2 && m[0] == (
            "type"@,
            json::JsonView::Str("user"@),
        ) && m[1].0 == "message"@ && (m[1].1 matches json::JsonView::Object(w) && w.len() == 2
            && w[0] == ("role"@, json::JsonView::Str("user"@)) && w[1] == (
            "content"@,
            json::JsonView::Array(
                seq![
                    json::JsonView::Object(
                        seq![
                            ("type"@, json::JsonView::Str("text"@)),
                            ("text"@, json::JsonView::Str(prompt)),
                        ],
                    ),
                ] + blocks,
            ),
        )),
        turn_blocks(Seq::empty(), blocks) == blocks,
{
}

/// An image goes to the agent with its type and its bytes; of any other file only
/// the path is told.
pub proof fn attachments_are_told(a: Attachment, bytes: Seq<u8>)
    ensures
        a.kind is Image ==> attachment_block(a, bytes) == json::JsonView::Object(
            seq![
                ("type"@, json::JsonView::Str("image"@)),
                (
                    "source"@,
                    json::JsonView::Object(
                        seq![
                            ("type"@, json::JsonView::Str("base64"@)),
                            ("media_type"@, json::JsonView::Str(a.mime@)),
                            ("data"@, json::JsonView::Str(sign::base64_text(bytes))),
                        ],
                    ),
                ),
            ],
        ),
        !(a.kind is Image) ==> attachment_block(a, bytes) == json::JsonView::Object(
            seq![
                ("type"@, json::JsonView::Str("text"@)),
                ("text"@, json::JsonView::Str("[attachment: "@ + a.path@ + "]"@)),
            ],
        ),
{
}

/// An answer names the request it answers and says what was decided.
pub proof fn answers_name_their_request(id: Seq<char>, allow: bool)
    ensures
        answer_frame(id, allow) == json::JsonView::Object(
            seq![
                ("type"@, json::JsonView::Str("control_response"@)),
                ("request_id"@, json::JsonView::Str(id)),
                (
                    "response"@,
                    json::JsonView::Object(seq![("approved"@, json::JsonView::Bool(allow))]),
                ),
            ],
        ),
{
}

/// A client works in the directory of its own name under the configured one, and
/// is otherwise configured like all.
pub proof fn names_are_put_under_a_directory(dir: Seq<char>, name: Seq<char>)
    requires
        dir.len() > 0,
        dir.last() != '/',
    ensures
        path_in(dir, name) == dir + "/"@ + name,
        path_in(dir + "/"@, name) == dir + "/"@ + name,
        path_in(Seq::empty(), name) == name,
{
    reveal_strlit("/");
    assert((dir + "/"@).last() == '/');
    assert(path_in(Seq::empty(), name) =~= name);
}

/// A turn is broken off by asking for it.
pub proof fn turns_are_broken_off_on_request()
    ensures
        interrupt_frame() == json::JsonView::Object(
            seq![
                ("type"@, json::JsonView::Str("control_request"@)),
                (
                    "request"@,
                    json::JsonView::Object(seq![("subtype"@, json::JsonView::Str("interrupt"@))]),
                ),
            ],
        ),
{
}

/// The directory of a client is its key, with two underscores for each separator and
/// without the characters that do not belong in a name.
pub proof fn directory_is_named_like_the_key(a: Seq<char>, c: char)
    requires
        c as u32 <= 127,
    ensures
        c == ':' || c == '/' ==> dirname(a.push(c)) == dirname(a) + "__"@,
        text::is_ascii_alnum(c) || c == '_' || c == '-' || c == '.' ==> dirname(a.push(c))
            == dirname(a).push(c),
        c == ' ' || c == '\\' || c == '"' || c == '$' || c == '\'' ==> dirname(a.push(c)) == dirname(
            a,
        ),
        dirname(Seq::empty()).len() == 0,
{
    let one = seq![c];
    assert(a.push(c) =~= a + one);
    lemma_dirname_of_parts(a, one);
    lemma_dirname_of_char(c);
    assert(dirname(a) + seq![c] =~= dirname(a).push(c));
    assert(dirname(a) + Seq::<char>::empty() =~= dirname(a));
}

/// Each text of a list behind a flag of its own, in the order of the list.
pub open spec fn flagged(flag: Seq<char>, v: Seq<Seq<char>>) -> Seq<Seq<char>> {
    Seq::new(
        2 * v.len(),
        |i: int|
            if i % 2 == 0 {
                flag
            } else {
                v[i / 2]
            },
    )
}

proof fn lemma_flagged(flag: Seq<char>, v: Seq<Seq<char>>)
    ensures
        each_flag(flag, v) == flagged(flag, v),
    decreases v.len(),
{
    if v.len() > 0 {
        lemma_flagged(flag, v.drop_last());
        assert(each_flag(flag, v) =~= flagged(flag, v));
    } else {
        assert(each_flag(flag, v) =~= flagged(flag, v));
    }
}

proof fn lemma_all_add_dirs(c: ClaudeView, resume: Option<Seq<char>>, id: Seq<char>)
    ensures
        put_in(
            spawn_line(c, resume, id),
            spawn_line(ClaudeView { add_dirs: Seq::empty(), ..c }, resume, id),
            flagged("--add-dir"@, c.add_dirs),
            c.extra_args.len() + 2,
        ),
{
    let without = ClaudeView { add_dirs: Seq::empty(), ..c };
    let a = seq![
        "--input-format"@,
        "stream-json"@,
        "--output-format"@,
        "stream-json"@,
        "-p"@,
        "--verbose"@,
    ] + on_flag("--dangerously-skip-permissions"@, c.skip_permissions) + on_flag("--include-partial-messages"@, c.include_partial_messages) + permission_flag(c.permission_mode) + opt_flag("--model"@, c.model) + opt_flag("--fallback-model"@, c.fallback_model) + opt_flag("--effort"@, c.effort) + opt_flag("--append-system-prompt"@, c.append_system_prompt) + opt_flag("--max-budget-usd"@, c.max_budget_usd);
    let part = flagged("--add-dir"@, c.add_dirs);
    lemma_flagged("--add-dir"@, c.add_dirs);
    lemma_nothing_behind(a);
    let x = a + part;
    let b1 = each_flag("--mcp-config"@, c.mcp_config_files);
    let b2 = b1 + list_flag("--allowedTools"@, c.allowed_tools);
    lemma_regroup(x, b1, list_flag("--allowedTools"@, c.allowed_tools));
    lemma_regroup(a, b1, list_flag("--allowedTools"@, c.allowed_tools));
    let b3 = b2 + list_flag("--disallowedTools"@, c.disallowed_tools);
    lemma_regroup(x, b2, list_flag("--disallowedTools"@, c.disallowed_tools));
    lemma_regroup(a, b2, list_flag("--disallowedTools"@, c.disallowed_tools));
    let b4 = b3 + session_flag(resume, id);
    lemma_regroup(x, b3, session_flag(resume, id));
    lemma_regroup(a, b3, session_flag(resume, id));
    let b5 = b4 + c.extra_args;
    lemma_regroup(x, b4, c.extra_args);
    lemma_regroup(a, b4, c.extra_args);
    lemma_put_in(
        a,
        part,
        b5,
        spawn_line(c, resume, id),
        spawn_line(without, resume, id),
        c.extra_args.len() + 2,
    );
}

proof fn lemma_all_mcp_config_files(c: ClaudeView, resume: Option<Seq<char>>, id: Seq<char>)
    ensures
        put_in(
            spawn_line(c, resume, id),
            spawn_line(ClaudeView { mcp_config_files: Seq::empty(), ..c }, resume, id),
            flagged("--mcp-config"@, c.mcp_config_files),
            c.extra_args.len() + 2,
        ),
{
    let without = ClaudeView { mcp_config_files: Seq::empty(), ..c };
    let a = seq![
        "--input-format"@,
        "stream-json"@,
        "--output-format"@,
        "stream-json"@,
        "-p"@,
        "--verbose"@,
    ] + on_flag("--dangerously-skip-permissions"@, c.skip_permissions) + on_flag("--include-partial-messages"@, c.include_partial_messages) + permission_flag(c.permission_mode) + opt_flag("--model"@, c.model) + opt_flag("--fallback-model"@, c.fallback_model) + opt_flag("--effort"@, c.effort) + opt_flag("--append-system-prompt"@, c.append_system_prompt) + opt_flag("--max-budget-usd"@, c.max_budget_usd) + each_flag("--add-dir"@, c.add_dirs);
    let part = flagged("--mcp-config"@, c.mcp_config_files);
    lemma_flagged("--mcp-config"@, c.mcp_config_files);
    lemma_nothing_behind(a);
    let x = a + part;
    let b1 = list_flag("--allowedTools"@, c.allowed_tools);
    let b2 = b1 + list_flag("--disallowedTools"@, c.disallowed_tools);
    lemma_regroup(x, b1, list_flag("--disallowedTools"@, c.disallowed_tools));
    lemma_regroup(a, b1, list_flag("--disallowedTools"@, c.disallowed_tools));
    let b3 = b2 + session_flag(resume, id);
    lemma_regroup(x, b2, session_flag(resume, id));
    lemma_regroup(a, b2, session_flag(resume, id));
    let b4 = b3 + c.extra_args;
    lemma_regroup(x, b3, c.extra_args);
    lemma_regroup(a, b3, c.extra_args);
    lemma_put_in(
        a,
        part,
        b4,
        spawn_line(c, resume, id),
        spawn_line(without, resume, id),
        c.extra_args.len() + 2,
    );
}

/// The directories and the server files come in the order in which they are
/// configured.
pub proof fn lists_keep_their_order(c: ClaudeView, resume: Option<Seq<char>>, id: Seq<char>)
    ensures
        put_in(
            spawn_line(c, resume, id),
            spawn_line(ClaudeView { add_dirs: Seq::empty(), ..c }, resume, id),
            flagged("--add-dir"@, c.add_dirs),
            c.extra_args.len() + 2,
        ),
        put_in(
            spawn_line(c, resume, id),
            spawn_line(ClaudeView { mcp_config_files: Seq::empty(), ..c }, resume, id),
            flagged("--mcp-config"@, c.mcp_config_files),
            c.extra_args.len() + 2,
        ),
{
    lemma_all_add_dirs(c, resume, id);
    lemma_all_mcp_config_files(c, resume, id);
}

/// So the model is on the command line right behind its flag, before the session is
/// named.
pub proof fn model_stands_behind_its_flag(
    c: ClaudeView,
    m: Seq<char>,
    resume: Option<Seq<char>>,
    id: Seq<char>,
)
    requires
        c.model == Some(m),
    ensures
        ({
            let line = spawn_line(c, resume, id);
            exists|i: int|
                0 <= i && i + 1 < line.len() - c.extra_args.len() - 2 && #[trigger] line[i]
                    == "--model"@ && line[i + 1] == m
        }),
{
    let line = spawn_line(c, resume, id);
    let with = ClaudeView { model: Some(m), ..c };
    assert(with == c);
    options_stand_behind_their_flags(c, m, resume, id);
    let bare = spawn_line(ClaudeView { model: None, ..c }, resume, id);
    let part = seq!["--model"@, m];
    let k = choose|k: int|
        0 <= k && k + (c.extra_args.len() + 2) <= bare.len() && line == #[trigger] bare.take(k)
            + part + bare.skip(k);
    assert(line[k] == part[0]);
    assert(line[k + 1] == part[1]);
}

} // verus!
