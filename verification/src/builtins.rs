//! The built-in slash commands: what each asks for and what it answers.

use vstd::prelude::*;
use vstd::string::*;

use crate::commands;
use crate::commands::{CommandRegistry, CommandSpec, CommandView, Source};
use crate::json;
use crate::json::Json;
use crate::registry::RegistryEntry;
use crate::schedule;
use crate::schedule::ScheduleEntry;
use crate::text;

verus! {

/// The names of the built-in commands.
pub open spec fn builtin_names() -> Seq<Seq<char>> {
    seq![
        "help"@,
        "new"@,
        "reset"@,
        "clear"@,
        "agent"@,
        "agents"@,
        "resume"@,
        "mcp"@,
        "skills"@,
        "yes"@,
        "no"@,
        "model"@,
        "dir"@,
        "effort"@,
        "budget"@,
        "tools"@,
        "system"@,
        "schedule"@,
        "schedule-list"@,
        "schedule-delete"@,
    ]
}

pub open spec fn builtin(name: Seq<char>, description: Seq<char>) -> CommandView {
    CommandView { name, source: Source::Builtin, template: Seq::empty(), description }
}

/// The built-in commands.
pub open spec fn builtin_specs() -> Seq<CommandView> {
    seq![
        builtin("help"@, "list available commands"@),
        builtin("new"@, "start a fresh session on next message"@),
        builtin("reset"@, "end current session and start a fresh one"@),
        builtin("clear"@, "wipe all session history and start completely fresh"@),
        builtin("agent"@, "switch backing agent: /agent <name>"@),
        builtin("agents"@, "list registered agents"@),
        builtin("resume"@, "list sessions or resume one: /resume [session_id]"@),
        builtin("mcp"@, "show MCP servers configured for this client"@),
        builtin("skills"@, "show skills/settings configured for this client"@),
        builtin("yes"@, "approve a permission request: /yes <id>"@),
        builtin("no"@, "deny a permission request: /no <id>"@),
        builtin("model"@, "switch model and reset: /model <name>"@),
        builtin("dir"@, "add an allowed directory and reset: /dir <path>"@),
        builtin("effort"@, "set effort and reset: /effort <low|medium|high|xhigh|max>"@),
        builtin("budget"@, "set a USD ceiling and reset: /budget <usd>"@),
        builtin("tools"@, "tune tools and reset: /tools allow|deny <tool>, /tools clear"@),
        builtin("system"@, "append a system prompt and reset: /system <text>"@),
        builtin("schedule"@, "schedule a prompt: /schedule <when> \"<prompt>\""@),
        builtin("schedule-list"@, "list scheduled prompts"@),
        builtin("schedule-delete"@, "delete a scheduled prompt: /schedule-delete <id>"@),
    ]
}

/// No built-in command has lost its name.
pub open spec fn has_builtins(reg: CommandRegistry) -> bool {
    forall|i: int|
        0 <= i < builtin_names().len() ==> (reg.lookup(
            commands::normal(#[trigger] builtin_names()[i]),
        ) matches Some(s) && s.source == Source::Builtin)
}

pub proof fn lemma_builtins_stay(
    before: CommandRegistry,
    after: CommandRegistry,
    spec: CommandSpec,
    accepted: bool,
)
    requires
        has_builtins(before),
        commands::registers(before, after, spec, accepted),
    ensures
        has_builtins(after),
{
    assert forall|i: int| 0 <= i < builtin_names().len() implies (after.lookup(
        commands::normal(#[trigger] builtin_names()[i]),
    ) matches Some(s) && s.source == Source::Builtin) by {
        commands::builtin_commands_stay(
            before,
            after,
            spec,
            accepted,
            commands::normal(builtin_names()[i]),
        );
    }
}

fn b(name: &str, description: &str) -> (r: CommandSpec)
    ensures
        r@ == builtin(name@, description@),
{
    let template: String = String::new();
    assert(template@ =~= Seq::<char>::empty());
    CommandSpec {
        name: name.to_string(),
        source: Source::Builtin,
        template,
        description: description.to_string(),
    }
}

/// The built-in commands.
pub fn builtin_commands() -> (r: Vec<CommandSpec>)
    ensures
        commands::command_views(r@) == builtin_specs(),
{
    let mut v: Vec<CommandSpec> = Vec::new();
    v.push(b("help", "list available commands"));
    v.push(b("new", "start a fresh session on next message"));
    v.push(b("reset", "end current session and start a fresh one"));
    v.push(b("clear", "wipe all session history and start completely fresh"));
    v.push(b("agent", "switch backing agent: /agent <name>"));
    v.push(b("agents", "list registered agents"));
    v.push(b("resume", "list sessions or resume one: /resume [session_id]"));
    v.push(b("mcp", "show MCP servers configured for this client"));
    v.push(b("skills", "show skills/settings configured for this client"));
    v.push(b("yes", "approve a permission request: /yes <id>"));
    v.push(b("no", "deny a permission request: /no <id>"));
    v.push(b("model", "switch model and reset: /model <name>"));
    v.push(b("dir", "add an allowed directory and reset: /dir <path>"));
    v.push(b("effort", "set effort and reset: /effort <low|medium|high|xhigh|max>"));
    v.push(b("budget", "set a USD ceiling and reset: /budget <usd>"));
    v.push(b("tools", "tune tools and reset: /tools allow|deny <tool>, /tools clear"));
    v.push(b("system", "append a system prompt and reset: /system <text>"));
    v.push(b("schedule", "schedule a prompt: /schedule <when> \"<prompt>\""));
    v.push(b("schedule-list", "list scheduled prompts"));
    v.push(b("schedule-delete", "delete a scheduled prompt: /schedule-delete <id>"));
    assert(commands::command_views(v@) =~= builtin_specs());
    v
}

/// A name of small letters and hyphens.
spec fn simple(name: Seq<char>) -> bool {
    name.len() > 0 && forall|k: int|
        0 <= k < name.len() ==> ('a' <= #[trigger] name[k] <= 'z' || name[k] == '-')
}

/// What the normalized form of a simple name is: hyphens are underscores.
spec fn underscored(name: Seq<char>) -> Seq<char> {
    Seq::new(
        name.len(),
        |k: int|
            if name[k] == '-' {
                '_'
            } else {
                name[k]
            },
    )
}

proof fn lemma_hyphens(name: Seq<char>)
    ensures
        text::replace_chars(name, seq!['-'], seq!['_']) == underscored(name),
    decreases name.len(),
{
    if name.len() > 0 {
        lemma_hyphens(name.drop_last());
        assert(seq!['-'][0] == '-');
        assert(text::replace_chars(name, seq!['-'], seq!['_']) =~= underscored(name));
    } else {
        assert(underscored(name) =~= name);
    }
}

proof fn lemma_simple(name: Seq<char>)
    requires
        simple(name),
    ensures
        commands::normal(name) == underscored(name),
{
    assert(!seq!['/'].contains(name[0]));
    lemma_hyphens(name);
    assert(text::lower_ascii(underscored(name)) =~= underscored(name));
}

/// How long the name of the built-in command at `i` is and how it starts.
spec fn start_of(i: int) -> (int, char, char) {
    if i == 0 {
        (4, 'h', 'e')
    } else if i == 1 {
        (3, 'n', 'e')
    } else if i == 2 {
        (5, 'r', 'e')
    } else if i == 3 {
        (5, 'c', 'l')
    } else if i == 4 {
        (5, 'a', 'g')
    } else if i == 5 {
        (6, 'a', 'g')
    } else if i == 6 {
        (6, 'r', 'e')
    } else if i == 7 {
        (3, 'm', 'c')
    } else if i == 8 {
        (6, 's', 'k')
    } else if i == 9 {
        (3, 'y', 'e')
    } else if i == 10 {
        (2, 'n', 'o')
    } else if i == 11 {
        (5, 'm', 'o')
    } else if i == 12 {
        (3, 'd', 'i')
    } else if i == 13 {
        (6, 'e', 'f')
    } else if i == 14 {
        (6, 'b', 'u')
    } else if i == 15 {
        (5, 't', 'o')
    } else if i == 16 {
        (6, 's', 'y')
    } else if i == 17 {
        (8, 's', 'c')
    } else if i == 18 {
        (13, 's', 'c')
    } else {
        (15, 's', 'c')
    }
}

/// The names of the built-in commands are simple, and no two are normalized to
/// the same.
proof fn lemma_builtin_names()
    ensures
        builtin_names().len() == builtin_specs().len(),
        forall|i: int|
            0 <= i < builtin_names().len() ==> simple(#[trigger] builtin_names()[i])
                && builtin_specs()[i].name == builtin_names()[i] && builtin_specs()[i].source
                == Source::Builtin,
        forall|i: int, j: int|
            0 <= i < j < builtin_names().len() ==> underscored(#[trigger] builtin_names()[i])
                != underscored(#[trigger] builtin_names()[j]),
{
    assert(simple("help"@) && "help"@.len() == 4 && "help"@[0] == 'h' && "help"@[1] == 'e') by {
        reveal_strlit("help");
    }
    assert(simple("new"@) && "new"@.len() == 3 && "new"@[0] == 'n' && "new"@[1] == 'e') by {
        reveal_strlit("new");
    }
    assert(simple("reset"@) && "reset"@.len() == 5 && "reset"@[0] == 'r' && "reset"@[1] == 'e') by {
        reveal_strlit("reset");
    }
    assert(simple("clear"@) && "clear"@.len() == 5 && "clear"@[0] == 'c' && "clear"@[1] == 'l') by {
        reveal_strlit("clear");
    }
    assert(simple("agent"@) && "agent"@.len() == 5 && "agent"@[0] == 'a' && "agent"@[1] == 'g') by {
        reveal_strlit("agent");
    }
    assert(simple("agents"@) && "agents"@.len() == 6 && "agents"@[0] == 'a' && "agents"@[1] == 'g') by {
        reveal_strlit("agents");
    }
    assert(simple("resume"@) && "resume"@.len() == 6 && "resume"@[0] == 'r' && "resume"@[1] == 'e') by {
        reveal_strlit("resume");
    }
    assert(simple("mcp"@) && "mcp"@.len() == 3 && "mcp"@[0] == 'm' && "mcp"@[1] == 'c') by {
        reveal_strlit("mcp");
    }
    assert(simple("skills"@) && "skills"@.len() == 6 && "skills"@[0] == 's' && "skills"@[1] == 'k') by {
        reveal_strlit("skills");
    }
    assert(simple("yes"@) && "yes"@.len() == 3 && "yes"@[0] == 'y' && "yes"@[1] == 'e') by {
        reveal_strlit("yes");
    }
    assert(simple("no"@) && "no"@.len() == 2 && "no"@[0] == 'n' && "no"@[1] == 'o') by {
        reveal_strlit("no");
    }
    assert(simple("model"@) && "model"@.len() == 5 && "model"@[0] == 'm' && "model"@[1] == 'o') by {
        reveal_strlit("model");
    }
    assert(simple("dir"@) && "dir"@.len() == 3 && "dir"@[0] == 'd' && "dir"@[1] == 'i') by {
        reveal_strlit("dir");
    }
    assert(simple("effort"@) && "effort"@.len() == 6 && "effort"@[0] == 'e' && "effort"@[1] == 'f') by {
        reveal_strlit("effort");
    }
    assert(simple("budget"@) && "budget"@.len() == 6 && "budget"@[0] == 'b' && "budget"@[1] == 'u') by {
        reveal_strlit("budget");
    }
    assert(simple("tools"@) && "tools"@.len() == 5 && "tools"@[0] == 't' && "tools"@[1] == 'o') by {
        reveal_strlit("tools");
    }
    assert(simple("system"@) && "system"@.len() == 6 && "system"@[0] == 's' && "system"@[1] == 'y') by {
        reveal_strlit("system");
    }
    assert(simple("schedule"@) && "schedule"@.len() == 8 && "schedule"@[0] == 's' && "schedule"@[1] == 'c') by {
        reveal_strlit("schedule");
    }
    assert(simple("schedule-list"@) && "schedule-list"@.len() == 13 && "schedule-list"@[0] == 's' && "schedule-list"@[1] == 'c') by {
        reveal_strlit("schedule-list");
    }
    assert(simple("schedule-delete"@) && "schedule-delete"@.len() == 15 && "schedule-delete"@[0] == 's' && "schedule-delete"@[1] == 'c') by {
        reveal_strlit("schedule-delete");
    }
    let n = builtin_names();
    assert forall|i: int| 0 <= i < n.len() implies simple(#[trigger] n[i]) && (
        n[i].len() as int,
        n[i][0],
        n[i][1],
    ) == start_of(i) && builtin_specs()[i].name == n[i] && builtin_specs()[i].source
        == Source::Builtin by {}
    assert forall|i: int, j: int| 0 <= i < j < n.len() implies underscored(#[trigger] n[i])
        != underscored(#[trigger] n[j]) by {
        assert(start_of(i) != start_of(j));
        let (a, b) = (n[i], n[j]);
        assert((a.len() as int, a[0], a[1]) == start_of(i));
        assert((b.len() as int, b[0], b[1]) == start_of(j));
        assert(a[0] != '-' && a[1] != '-' && b[0] != '-' && b[1] != '-');
        if underscored(a) == underscored(b) {
            assert(underscored(a).len() == a.len() && underscored(b).len() == b.len());
            assert(underscored(a)[0] == a[0] && underscored(a)[1] == a[1]);
            assert(underscored(b)[0] == b[0] && underscored(b)[1] == b[1]);
        }
    }
}

/// No two built-in commands have the same name.
pub proof fn builtin_commands_are_distinct()
    ensures
        commands::distinct(builtin_specs()),
{
    lemma_builtin_names();
    let all = builtin_specs();
    let n = builtin_names();
    assert forall|i: int, j: int| 0 <= i < j < all.len() implies commands::normal(
        #[trigger] all[i].name,
    ) != commands::normal(#[trigger] all[j].name) by {
        lemma_simple(n[i]);
        lemma_simple(n[j]);
    }
}

/// A registry with the built-in commands and nothing else.
pub fn builtin_registry() -> (r: CommandRegistry)
    ensures
        r.wf(),
        has_builtins(r),
        commands::command_views(r.all()) == builtin_specs(),
{
    let specs: Vec<CommandSpec> = builtin_commands();
    let mut reg: CommandRegistry = CommandRegistry::new();
    let mut i: usize = 0;
    let ghost names = builtin_names();
    let ghost all = builtin_specs();
    proof {
        lemma_builtin_names();
        builtin_commands_are_distinct();
        assert(commands::command_views(reg.all()) =~= all.take(0));
    }
    while i < specs.len()
        invariant
            i <= specs@.len(),
            commands::command_views(specs@) == all,
            commands::distinct(all),
            all.len() == specs@.len(),
            forall|j: int| 0 <= j < all.len() ==> (#[trigger] all[j]).source == Source::Builtin,
            reg.wf(),
            commands::command_views(reg.all()) == all.take(i as int),
        decreases specs@.len() - i,
    {
        let ghost views = all.take(i as int);
        let spec: CommandSpec = specs[i].clone();
        let ghost s = spec@;
        proof {
            assert(s == all[i as int]);
            let key = commands::normal(s.name);
            commands::lemma_place(views, key);
            assert(commands::place(views, key) is None) by {
                if commands::place(views, key) is Some {
                    let j = commands::place(views, key)->Some_0;
                    assert(views[j] == all[j]);
                    assert(commands::normal(all[j].name) != commands::normal(all[i as int].name));
                }
            }
        }
        let _ = reg.register(spec);
        assert(all.take(i + 1) =~= views.push(s));
        i = i + 1;
    }
    proof {
        assert(all.take(i as int) =~= all);
        assert forall|j: int| 0 <= j < names.len() implies (reg.lookup(
            commands::normal(#[trigger] names[j]),
        ) matches Some(c) && c.source == Source::Builtin) by {
            let key = commands::normal(names[j]);
            reg.lemma_named(key);
            commands::lemma_placed(all, j);
        }
    }
    reg
}

/// `help` is registered as it is written.
pub proof fn lemma_help_name()
    ensures
        commands::normal("help"@) == "help"@,
{
    reveal_strlit("help");
    lemma_simple("help"@);
    assert(underscored("help"@) =~= "help"@);
}

/// A name in any spelling of its letters stands for the built-in command that has
/// it in small ones.
pub proof fn spelled_name_is_normalized(name: Seq<char>, i: int)
    requires
        0 <= i < builtin_names().len(),
        text::all_ascii(name),
        text::lower_ascii(name) == builtin_names()[i],
    ensures
        commands::normal(name) == commands::normal(builtin_names()[i]),
        name.len() > 0,
        forall|k: int| 0 <= k < name.len() ==> !text::is_white(#[trigger] name[k]) && name[k] != '"',
{
    lemma_builtin_names();
    let low = builtin_names()[i];
    lemma_simple(low);
    assert(low.len() == name.len());
    assert forall|k: int| 0 <= k < name.len() implies !text::is_white(#[trigger] name[k]) && name[k]
        != '"' && name[k] != '/' && (name[k] == '-' <==> low[k] == '-') by {
        assert(low[k] == text::lower_char(name[k]));
    }
    assert(!seq!['/'].contains(name[0]));
    assert(text::strip_front(name, seq!['/']) == name);
    lemma_hyphens(name);
    assert forall|k: int| 0 <= k < name.len() implies (#[trigger] underscored(name)[k]) as u32
        <= 0x7f by {
        assert(name[k] as u32 <= 0x7f);
    }
    assert forall|k: int| 0 <= k < name.len() implies text::lower_ascii(underscored(name))[k]
        == underscored(low)[k] by {
        assert(low[k] == text::lower_char(name[k]));
    }
    assert(text::lower_ascii(underscored(name)) =~= underscored(low));
}

// ── What a command asks for ─────────────────────────────────────────────

/// What the engine is to do for a built-in command.
#[derive(Debug, PartialEq, Eq)]
pub enum Plan {
    /// Just answer.
    Reply(String),
    ShowHelp,
    ShowAgents,
    /// End the session, archive it, then answer.
    Reset { reply: String },
    /// End the session, wipe its history, then answer.
    Clear { reply: String },
    SwitchAgent { agent: String },
    ListSessions,
    ResumeSession { id: String },
    ShowMcp,
    ShowSkills,
    /// Answer a permission request of the agent.
    Decide { id: String, allow: bool },
    /// Reconfigure the agent, end the session, then answer.
    Override { name: String, value: String, reply: String },
    AddSchedule { when: String, prompt: String },
    ListSchedules,
    DeleteSchedule { prefix: String },
}

pub enum PlanView {
    Reply(Seq<char>),
    ShowHelp,
    ShowAgents,
    Reset { reply: Seq<char> },
    Clear { reply: Seq<char> },
    SwitchAgent { agent: Seq<char> },
    ListSessions,
    ResumeSession { id: Seq<char> },
    ShowMcp,
    ShowSkills,
    Decide { id: Seq<char>, allow: bool },
    Override { name: Seq<char>, value: Seq<char>, reply: Seq<char> },
    AddSchedule { when: Seq<char>, prompt: Seq<char> },
    ListSchedules,
    DeleteSchedule { prefix: Seq<char> },
}

impl View for Plan {
    type V = PlanView;

    open spec fn view(&self) -> PlanView {
        match self {
            Plan::Reply(t) => PlanView::Reply(t@),
            Plan::ShowHelp => PlanView::ShowHelp,
            Plan::ShowAgents => PlanView::ShowAgents,
            Plan::Reset { reply } => PlanView::Reset { reply: reply@ },
            Plan::Clear { reply } => PlanView::Clear { reply: reply@ },
            Plan::SwitchAgent { agent } => PlanView::SwitchAgent { agent: agent@ },
            Plan::ListSessions => PlanView::ListSessions,
            Plan::ResumeSession { id } => PlanView::ResumeSession { id: id@ },
            Plan::ShowMcp => PlanView::ShowMcp,
            Plan::ShowSkills => PlanView::ShowSkills,
            Plan::Decide { id, allow } => PlanView::Decide { id: id@, allow: *allow },
            Plan::Override { name, value, reply } => PlanView::Override {
                name: name@,
                value: value@,
                reply: reply@,
            },
            Plan::AddSchedule { when, prompt } => PlanView::AddSchedule {
                when: when@,
                prompt: prompt@,
            },
            Plan::ListSchedules => PlanView::ListSchedules,
            Plan::DeleteSchedule { prefix } => PlanView::DeleteSchedule { prefix: prefix@ },
        }
    }
}

/// The first argument, empty where there is none.
pub open spec fn first_arg(args: Seq<Seq<char>>) -> Seq<char> {
    if args.len() > 0 {
        args[0]
    } else {
        Seq::empty()
    }
}

/// A command that sets something takes an argument; without one it explains
/// itself.
pub open spec fn setting(name: Seq<char>, value: Seq<char>, usage: Seq<char>) -> PlanView {
    if value.len() == 0 {
        PlanView::Reply("usage: "@ + usage)
    } else {
        PlanView::Override {
            name,
            value,
            reply: name + " → `"@ + value + "` — session reset."@,
        }
    }
}

/// What `/tools` asks for.
pub open spec fn tools_plan(args: Seq<Seq<char>>) -> PlanView {
    let usage = "usage: /tools allow <tool> | /tools deny <tool> | /tools clear"@;
    let verb = first_arg(args);
    let tool = if args.len() > 0 {
        text::join(args.skip(1), " "@)
    } else {
        Seq::empty()
    };
    if verb == "clear"@ {
        PlanView::Override {
            name: "clear_tools"@,
            value: Seq::empty(),
            reply: "tool lists cleared — session reset."@,
        }
    } else if tool.len() == 0 {
        PlanView::Reply(usage)
    } else if verb == "allow"@ {
        PlanView::Override {
            name: "allow_tool"@,
            value: tool,
            reply: "allowed `"@ + tool + "` — session reset."@,
        }
    } else if verb == "deny"@ {
        PlanView::Override {
            name: "deny_tool"@,
            value: tool,
            reply: "denied `"@ + tool + "` — session reset."@,
        }
    } else {
        PlanView::Reply(usage)
    }
}

/// What `/schedule` asks for: the last argument is the prompt, those before it
/// say when.
pub open spec fn schedule_plan(args: Seq<Seq<char>>) -> PlanView {
    if args.len() < 2 {
        PlanView::Reply(
            "usage: /schedule <in 30m | at 14:00 | every 1h | every day 09:00> \"<prompt>\""@,
        )
    } else {
        PlanView::AddSchedule {
            when: text::join(args.drop_last(), " "@),
            prompt: args.last(),
        }
    }
}

/// What a built-in command asks for, by its normalized name.
pub open spec fn planned(name: Seq<char>, args: Seq<Seq<char>>) -> PlanView {
    if name == "help"@ {
        PlanView::ShowHelp
    } else if name == "new"@ {
        PlanView::Reset { reply: "session reset — next message starts fresh."@ }
    } else if name == "reset"@ {
        PlanView::Reset { reply: "session reset."@ }
    } else if name == "clear"@ {
        PlanView::Clear { reply: "session cleared — all history wiped."@ }
    } else if name == "agent"@ {
        if first_arg(args).len() == 0 {
            PlanView::Reply("usage: /agent <name>"@)
        } else {
            PlanView::SwitchAgent { agent: first_arg(args) }
        }
    } else if name == "agents"@ {
        PlanView::ShowAgents
    } else if name == "resume"@ {
        if first_arg(args).len() == 0 {
            PlanView::ListSessions
        } else {
            PlanView::ResumeSession { id: first_arg(args) }
        }
    } else if name == "mcp"@ {
        PlanView::ShowMcp
    } else if name == "skills"@ {
        PlanView::ShowSkills
    } else if name == "yes"@ {
        if first_arg(args).len() == 0 {
            PlanView::Reply("usage: /yes <id>"@)
        } else {
            PlanView::Decide { id: first_arg(args), allow: true }
        }
    } else if name == "no"@ {
        if first_arg(args).len() == 0 {
            PlanView::Reply("usage: /no <id>"@)
        } else {
            PlanView::Decide { id: first_arg(args), allow: false }
        }
    } else if name == "model"@ {
        setting("model"@, first_arg(args), "/model <name>"@)
    } else if name == "dir"@ {
        setting("add_dir"@, text::join(args, " "@), "/dir <path>"@)
    } else if name == "effort"@ {
        setting("effort"@, first_arg(args), "/effort <low|medium|high|xhigh|max>"@)
    } else if name == "budget"@ {
        setting("budget"@, first_arg(args), "/budget <usd>"@)
    } else if name == "tools"@ {
        tools_plan(args)
    } else if name == "system"@ {
        setting("append_system_prompt"@, text::join(args, " "@), "/system <text>"@)
    } else if name == "schedule"@ {
        schedule_plan(args)
    } else if name == "schedule_list"@ {
        PlanView::ListSchedules
    } else if name == "schedule_delete"@ {
        if first_arg(args).len() == 0 {
            PlanView::Reply("usage: /schedule-delete <id>"@)
        } else {
            PlanView::DeleteSchedule { prefix: first_arg(args) }
        }
    } else {
        PlanView::Reply("/"@ + name + " not implemented"@)
    }
}

fn first_of(args: &Vec<String>) -> (r: String)
    ensures
        r@ == first_arg(text::texts(args@)),
{
    if args.len() > 0 {
        args[0].clone()
    } else {
        let empty: String = String::new();
        assert(empty@ =~= Seq::<char>::empty());
        empty
    }
}

fn empty(s: &str) -> (r: bool)
    ensures
        r == (s@.len() == 0),
{
    s.unicode_len() == 0
}

fn set(name: &str, value: String, usage: &str) -> (r: Plan)
    ensures
        r@ == setting(name@, value@, usage@),
{
    if empty(value.as_str()) {
        Plan::Reply(text::concat2("usage: ", usage))
    } else {
        let mut reply: String = text::concat3(name, " → `", value.as_str());
        reply.append("` — session reset.");
        Plan::Override { name: name.to_string(), value, reply }
    }
}

fn plan_tools(args: &Vec<String>) -> (r: Plan)
    ensures
        r@ == tools_plan(text::texts(args@)),
{
    let usage: &str = "usage: /tools allow <tool> | /tools deny <tool> | /tools clear";
    let verb: String = first_of(args);
    let none: String = String::new();
    assert(none@ =~= Seq::<char>::empty());
    let tool: String = if args.len() > 0 {
        text::joined_from(args, 1, " ")
    } else {
        none.clone()
    };
    if text::same(verb.as_str(), "clear") {
        Plan::Override {
            name: "clear_tools".to_string(),
            value: none,
            reply: "tool lists cleared — session reset.".to_string(),
        }
    } else if empty(tool.as_str()) {
        Plan::Reply(usage.to_string())
    } else if text::same(verb.as_str(), "allow") {
        let reply: String = text::concat3("allowed `", tool.as_str(), "` — session reset.");
        Plan::Override { name: "allow_tool".to_string(), value: tool, reply }
    } else if text::same(verb.as_str(), "deny") {
        let reply: String = text::concat3("denied `", tool.as_str(), "` — session reset.");
        Plan::Override { name: "deny_tool".to_string(), value: tool, reply }
    } else {
        Plan::Reply(usage.to_string())
    }
}

fn plan_schedule(args: &Vec<String>) -> (r: Plan)
    ensures
        r@ == schedule_plan(text::texts(args@)),
{
    let n: usize = args.len();
    if n < 2 {
        Plan::Reply(
            "usage: /schedule <in 30m | at 14:00 | every 1h | every day 09:00> \"<prompt>\"".to_string(),
        )
    } else {
        let mut head: Vec<String> = crate::text::copy_strings(args);
        let prompt: String = head.pop().unwrap();
        assert(text::texts(head@) =~= text::texts(args@).drop_last());
        Plan::AddSchedule { when: text::joined(&head, " "), prompt }
    }
}

/// What a built-in command asks for, by its normalized name.
pub fn plan_builtin(name: &str, args: &Vec<String>) -> (r: Plan)
    ensures
        r@ == planned(name@, text::texts(args@)),
{
    let first: String = first_of(args);
    if text::same(name, "help") {
        Plan::ShowHelp
    } else if text::same(name, "new") {
        Plan::Reset { reply: "session reset — next message starts fresh.".to_string() }
    } else if text::same(name, "reset") {
        Plan::Reset { reply: "session reset.".to_string() }
    } else if text::same(name, "clear") {
        Plan::Clear { reply: "session cleared — all history wiped.".to_string() }
    } else if text::same(name, "agent") {
        if empty(first.as_str()) {
            Plan::Reply("usage: /agent <name>".to_string())
        } else {
            Plan::SwitchAgent { agent: first }
        }
    } else if text::same(name, "agents") {
        Plan::ShowAgents
    } else if text::same(name, "resume") {
        if empty(first.as_str()) {
            Plan::ListSessions
        } else {
            Plan::ResumeSession { id: first }
        }
    } else if text::same(name, "mcp") {
        Plan::ShowMcp
    } else if text::same(name, "skills") {
        Plan::ShowSkills
    } else if text::same(name, "yes") {
        if empty(first.as_str()) {
            Plan::Reply("usage: /yes <id>".to_string())
        } else {
            Plan::Decide { id: first, allow: true }
        }
    } else if text::same(name, "no") {
        if empty(first.as_str()) {
            Plan::Reply("usage: /no <id>".to_string())
        } else {
            Plan::Decide { id: first, allow: false }
        }
    } else if text::same(name, "model") {
        set("model", first, "/model <name>")
    } else if text::same(name, "dir") {
        set("add_dir", text::joined(args, " "), "/dir <path>")
    } else if text::same(name, "effort") {
        set("effort", first, "/effort <low|medium|high|xhigh|max>")
    } else if text::same(name, "budget") {
        set("budget", first, "/budget <usd>")
    } else if text::same(name, "tools") {
        plan_tools(args)
    } else if text::same(name, "system") {
        set("append_system_prompt", text::joined(args, " "), "/system <text>")
    } else if text::same(name, "schedule") {
        plan_schedule(args)
    } else if text::same(name, "schedule_list") {
        Plan::ListSchedules
    } else if text::same(name, "schedule_delete") {
        if empty(first.as_str()) {
            Plan::Reply("usage: /schedule-delete <id>".to_string())
        } else {
            Plan::DeleteSchedule { prefix: first }
        }
    } else {
        Plan::Reply(text::concat3("/", name, " not implemented"))
    }
}

// ── Answers ─────────────────────────────────────────────────────────────

/// The lines of a text.
pub open spec fn lines_text(v: Seq<Seq<char>>) -> Seq<char> {
    text::join(v, "\n"@)
}

pub open spec fn source_tag(s: Source) -> Seq<char> {
    match s {
        Source::Builtin => "builtin"@,
        Source::Config => "config"@,
        Source::Agent => "agent"@,
    }
}

/// The line of a command in `/help`.
pub open spec fn help_line(c: CommandSpec) -> Seq<char> {
    "  /"@ + c.name@ + "  ("@ + source_tag(c.source) + ")  — "@ + c.description@
}

/// The names of commands.
pub open spec fn spec_names(v: Seq<CommandSpec>) -> Seq<Seq<char>> {
    Seq::new(v.len(), |i: int| v[i].name@)
}

/// The same commands in the order of their names.
pub open spec fn sorted_by_name(v: Seq<CommandSpec>, all: Seq<CommandSpec>) -> bool {
    text::sorted(spec_names(v)) && v.to_multiset() == all.to_multiset()
}

/// The commands of a list in the order of their names.
pub open spec fn by_name(all: Seq<CommandSpec>) -> Seq<CommandSpec> {
    choose|v: Seq<CommandSpec>| sorted_by_name(v, all)
}

proof fn lemma_name_multiset(v: Seq<CommandSpec>, w: Seq<CommandSpec>)
    requires
        v.to_multiset() == w.to_multiset(),
    ensures
        spec_names(v).to_multiset() == spec_names(w).to_multiset(),
    decreases v.len(),
{
    broadcast use vstd::seq_lib::group_to_multiset_ensures;

    assert(v.to_multiset().len() == v.len());
    assert(w.to_multiset().len() == w.len());
    if v.len() == 0 {
        assert(spec_names(v) =~= spec_names(w));
    } else {
        let x = v.last();
        let n = spec_names(v);
        let m = spec_names(w);
        assert(v.contains(x));
        assert(w.to_multiset().count(x) > 0);
        assert(w.contains(x));
        let i = choose|i: int| 0 <= i < w.len() && w[i] == x;
        assert(v =~= v.drop_last().push(x));
        assert(v.to_multiset() =~= v.drop_last().to_multiset().insert(x));
        assert(v.drop_last().to_multiset() =~= v.to_multiset().remove(x));
        assert(w.remove(i).to_multiset() =~= w.to_multiset().remove(x));
        lemma_name_multiset(v.drop_last(), w.remove(i));
        assert(n =~= spec_names(v.drop_last()).push(x.name@));
        assert(m.remove(i) =~= spec_names(w.remove(i)));
        assert(m[i] == x.name@);
        assert(m.contains(x.name@));
        assert(m.to_multiset() =~= m.remove(i).to_multiset().insert(x.name@));
    }
}

/// The order of commands with different names is fixed by which commands they
/// are.
pub proof fn command_order_is_fixed(
    v: Seq<CommandSpec>,
    w: Seq<CommandSpec>,
    all: Seq<CommandSpec>,
)
    requires
        sorted_by_name(v, all),
        sorted_by_name(w, all),
        spec_names(all).no_duplicates(),
    ensures
        v == w,
{
    lemma_name_multiset(v, w);
    text::sorted_list_is_fixed_by_its_texts(spec_names(v), spec_names(w));
    assert(v.len() == spec_names(v).len() && w.len() == spec_names(w).len());
    v.to_multiset_ensures();
    w.to_multiset_ensures();
    all.to_multiset_ensures();
    assert forall|i: int| 0 <= i < v.len() implies v[i] == w[i] by {
        assert(v.contains(v[i]));
        assert(w.contains(w[i]));
        assert(all.to_multiset().count(v[i]) > 0);
        assert(all.to_multiset().count(w[i]) > 0);
        assert(all.contains(v[i]) && all.contains(w[i]));
        let a = choose|a: int| 0 <= a < all.len() && all[a] == v[i];
        let b = choose|b: int| 0 <= b < all.len() && all[b] == w[i];
        assert(spec_names(all)[a] == spec_names(v)[i]);
        assert(spec_names(all)[b] == spec_names(w)[i]);
    }
    assert(v =~= w);
}

/// The answer to `/help` for commands in the given order.
pub open spec fn help_text(v: Seq<CommandSpec>) -> Seq<char> {
    lines_text(seq!["Available commands:"@] + Seq::new(v.len(), |i: int| help_line(v[i])))
}

proof fn lemma_lines_start(v: Seq<Seq<char>>)
    requires
        v.len() > 0,
    ensures
        v[0].is_prefix_of(lines_text(v)),
    decreases v.len(),
{
    if v.len() > 1 {
        lemma_lines_start(v.drop_last());
    }
}

/// The answer to `/help` starts with its heading.
pub proof fn help_starts_with_its_heading(v: Seq<CommandSpec>)
    ensures
        "Available commands:"@.is_prefix_of(help_text(v)),
{
    let lines = seq!["Available commands:"@] + Seq::new(v.len(), |i: int| help_line(v[i]));
    assert(lines[0] == "Available commands:"@);
    lemma_lines_start(lines);
}

fn sort_specs(v: &Vec<CommandSpec>) -> (r: Vec<CommandSpec>)
    ensures
        sorted_by_name(r@, v@),
{
    let mut out: Vec<CommandSpec> = Vec::new();
    let mut names: Vec<String> = Vec::new();
    let mut i: usize = 0;
    assert(out@ =~= v@.take(0));
    while i < v.len()
        invariant
            i <= v@.len(),
            text::texts(names@) == spec_names(out@),
            text::sorted(text::texts(names@)),
            out@.to_multiset() == v@.take(i as int).to_multiset(),
        decreases v@.len() - i,
    {
        let at: usize = text::sorted_position(&names, v[i].name.as_str());
        let ghost before = out@;
        let ghost old_names = text::texts(names@);
        assert(old_names.len() == out@.len());
        let ghost x = v@[i as int];
        out.insert(at, v[i].clone());
        names.insert(at, v[i].name.clone());
        proof {
            let after = out@;
            let new_names = text::texts(names@);
            assert(after =~= before.insert(at as int, x));
            assert(new_names =~= old_names.insert(at as int, x.name@));
            assert(new_names =~= spec_names(after));
            before.insert_ensures(at as int, x);
            broadcast use vstd::seq_lib::group_to_multiset_ensures;

            assert(after.to_multiset() =~= before.to_multiset().insert(x));
            assert(v@.take(i + 1) =~= v@.take(i as int).push(x));
            assert forall|a: int, b: int| 0 <= a < b < new_names.len() implies text::in_order(
                #[trigger] new_names[a],
                #[trigger] new_names[b],
            ) by {
                if b < at {
                    assert(text::in_order(old_names[a], old_names[b]));
                } else if a < at && b == at {
                    assert(text::in_order(old_names[a], x.name@));
                } else if a < at {
                    assert(text::in_order(old_names[a], old_names[b - 1]));
                } else if a == at {
                    assert(text::in_order(x.name@, old_names[b - 1]));
                } else {
                    assert(text::in_order(old_names[a - 1], old_names[b - 1]));
                }
            }
        }
        i = i + 1;
    }
    assert(v@.take(i as int) =~= v@);
    out
}

/// The answer to `/help`: every command in the order of the names.
pub fn help_reply(reg: &CommandRegistry) -> (r: String)
    requires
        reg.wf(),
    ensures
        r@ == help_text(by_name(reg.all())),
        sorted_by_name(by_name(reg.all()), reg.all()),
{
    let specs: Vec<CommandSpec> = sort_specs(reg.list());
    let mut lines: Vec<String> = Vec::new();
    lines.push("Available commands:".to_string());
    let mut i: usize = 0;
    while i < specs.len()
        invariant
            i <= specs@.len(),
            lines@.len() == i + 1,
            lines@[0]@ == "Available commands:"@,
            forall|j: int| 0 <= j < i ==> (#[trigger] lines@[j + 1])@ == help_line(specs@[j]),
        decreases specs@.len() - i,
    {
        let tag: &str = match specs[i].source {
            Source::Builtin => "builtin",
            Source::Config => "config",
            Source::Agent => "agent",
        };
        let mut line: String = text::concat3("  /", specs[i].name.as_str(), "  (");
        line.append(tag);
        line.append(")  — ");
        line.append(specs[i].description.as_str());
        let ghost before = lines@;
        lines.push(line);
        assert forall|j: int| 0 <= j < i implies (#[trigger] lines@[j + 1])@ == help_line(
            specs@[j],
        ) by {
            assert(lines@[j + 1] == before[j + 1]);
        }
        i = i + 1;
    }
    let ghost wanted = seq!["Available commands:"@] + Seq::new(
        specs@.len(),
        |i: int| help_line(specs@[i]),
    );
    proof {
        assert forall|k: int| 0 <= k < lines@.len() implies text::texts(lines@)[k] == wanted[k] by {
            if k > 0 {
                assert(lines@[(k - 1) + 1]@ == help_line(specs@[k - 1]));
            }
        }
        assert(text::texts(lines@) =~= wanted);
        assert(sorted_by_name(specs@, reg.all()));
        let all = reg.all();
        assert(spec_names(all).no_duplicates()) by {
            assert forall|i: int, j: int| 0 <= i < j < all.len() implies spec_names(all)[i]
                != spec_names(all)[j] by {
                assert(commands::normal(all[i].name@) != commands::normal(all[j].name@));
            }
        }
        command_order_is_fixed(specs@, by_name(all), all);
    }
    let r: String = text::joined(&lines, "\n");
    assert(r@ == help_text(specs@));
    r
}

/// The answer to `/agents` for names in the given order.
pub open spec fn agents_text(names: Seq<Seq<char>>, default: Seq<char>) -> Seq<char> {
    "agents available: "@ + text::join(names, ", "@) + "\ndefault: "@ + default
}

/// The answer to `/agents`: the names in dictionary order and the default.
pub fn agents_reply(agents: &Vec<String>, default_agent: &str) -> (r: String)
    ensures
        r@ == agents_text(text::in_dictionary_order(text::texts(agents@)), default_agent@),
{
    let names: Vec<String> = text::sorted_texts(agents);
    let mut out: String = text::concat3(
        "agents available: ",
        text::joined(&names, ", ").as_str(),
        "\ndefault: ",
    );
    out.append(default_agent);
    assert(out@ == agents_text(text::texts(names@), default_agent@));
    out
}

/// How many earlier sessions `/resume` shows.
pub const RESUME_SHOWN: usize = 20;

/// The lines of the earlier sessions, the latest first.
pub open spec fn past_lines(past: Seq<(Seq<char>, Seq<char>)>) -> Seq<Seq<char>> {
    let n: nat = if past.len() < RESUME_SHOWN {
        past.len()
    } else {
        RESUME_SHOWN as nat
    };
    Seq::new(
        n,
        |i: int|
            {
                let (agent, id) = past[past.len() - 1 - i];
                "  "@ + id + " (agent="@ + agent + ")"@
            },
    )
}

/// The lines of the sessions of a conversation.
pub open spec fn session_lines(e: crate::registry::RegistryView) -> Seq<Seq<char>> {
    let active = match e.active {
        Some(id) => seq!["▶ "@ + id + " (active, agent="@ + e.agent + ")"@],
        None => Seq::empty(),
    };
    let more = if e.past.len() > RESUME_SHOWN {
        seq!["  … and "@ + text::decimal((e.past.len() - RESUME_SHOWN) as nat) + " more"@]
    } else {
        Seq::empty()
    };
    active + past_lines(e.past) + more
}

/// The answer to `/resume` without an id.
pub open spec fn sessions_text(e: Option<crate::registry::RegistryView>) -> Seq<char> {
    match e {
        Some(e) => if session_lines(e).len() == 0 {
            "no sessions found."@
        } else {
            lines_text(session_lines(e))
        },
        None => "no sessions found."@,
    }
}

fn push_line(v: &mut Vec<String>, line: String)
    ensures
        text::texts(final(v)@) == text::texts(old(v)@).push(line@),
{
    let ghost before = v@;
    v.push(line);
    assert(text::texts(v@) =~= text::texts(before).push(line@));
}

/// The answer to `/resume` without an id: the active session and the latest
/// earlier ones.
pub fn sessions_reply(entry: &Option<RegistryEntry>) -> (r: String)
    ensures
        r@ == sessions_text(
            match entry {
                Some(e) => Some(e@),
                None => None,
            },
        ),
{
    let e: &RegistryEntry = match entry {
        Some(e) => e,
        None => {
            return "no sessions found.".to_string();
        },
    };
    let ghost view = e@;
    let mut lines: Vec<String> = Vec::new();
    assert(text::texts(lines@) =~= Seq::<Seq<char>>::empty());
    match &e.active_session_id {
        Some(id) => {
            let mut line: String = text::concat3("▶ ", id.as_str(), " (active, agent=");
            line.append(e.agent.as_str());
            line.append(")");
            push_line(&mut lines, line);
        },
        None => {},
    }
    let ghost active = text::texts(lines@);
    let n: usize = e.past_agent_session_ids.len();
    let shown: usize = if n < RESUME_SHOWN {
        n
    } else {
        RESUME_SHOWN
    };
    let mut i: usize = 0;
    assert(past_lines(view.past).take(0) =~= Seq::<Seq<char>>::empty());
    assert(active =~= active + past_lines(view.past).take(0));
    while i < shown
        invariant
            i <= shown <= n,
            n == e.past_agent_session_ids@.len(),
            n == view.past.len(),
            view == e@,
            past_lines(view.past).len() == shown,
            text::texts(lines@) == active + past_lines(view.past).take(i as int),
        decreases shown - i,
    {
        let mut line: String = text::concat3(
            "  ",
            e.past_agent_session_ids[n - 1 - i].1.as_str(),
            " (agent=",
        );
        line.append(e.past_agent_session_ids[n - 1 - i].0.as_str());
        line.append(")");
        let ghost p = past_lines(view.past);
        assert(view.past[n - 1 - i] == (
            e.past_agent_session_ids@[n - 1 - i].0@,
            e.past_agent_session_ids@[n - 1 - i].1@,
        ));
        assert(line@ == p[i as int]);
        push_line(&mut lines, line);
        assert(p.take(i + 1) =~= p.take(i as int).push(p[i as int]));
        assert(active + p.take(i + 1) =~= (active + p.take(i as int)).push(p[i as int]));
        i = i + 1;
    }
    assert(past_lines(view.past).take(i as int) =~= past_lines(view.past));
    if n > RESUME_SHOWN {
        let more: String = text::concat3(
            "  … and ",
            text::decimal_text((n - RESUME_SHOWN) as u64).as_str(),
            " more",
        );
        push_line(&mut lines, more);
    }
    assert(text::texts(lines@) =~= session_lines(view));
    if lines.len() == 0 {
        "no sessions found.".to_string()
    } else {
        text::joined(&lines, "\n")
    }
}

/// The names of the members of an object, none for another value.
pub open spec fn object_names(j: Option<json::JsonView>) -> Seq<Seq<char>> {
    match j {
        Some(json::JsonView::Object(o)) => json::member_names(o),
        _ => Seq::empty(),
    }
}

/// Texts with `before` in front of each.
pub open spec fn prefixed(v: Seq<Seq<char>>, before: Seq<char>) -> Seq<Seq<char>> {
    Seq::new(v.len(), |i: int| before + v[i])
}

/// The answer to `/mcp` for a configuration.
pub open spec fn mcp_text(config: json::JsonView, path: Seq<char>) -> Seq<char> {
    let names = object_names(config.get("mcpServers"@));
    let servers = if names.len() == 0 {
        seq!["  (none)"@]
    } else {
        prefixed(names, "  - "@)
    };
    lines_text((seq!["MCP servers:"@] + servers).push("config: "@ + path))
}

fn names_of(j: &Json) -> (r: Vec<String>)
    ensures
        text::texts(r@) == object_names(Some(j@)),
{
    let mut out: Vec<String> = Vec::new();
    match j {
        Json::Object(o) => {
            proof {
                json::lemma_member_views(o@);
            }
            let ghost view = json::member_views(o@);
            let mut i: usize = 0;
            while i < o.len()
                invariant
                    i <= o@.len(),
                    view == json::member_views(o@),
                    view.len() == o@.len(),
                    forall|j: int|
                        0 <= j < o@.len() ==> #[trigger] view[j] == (
                            o@[j].0@,
                            json::json_view(o@[j].1),
                        ),
                    out@.len() == i,
                    forall|j: int| 0 <= j < i ==> (#[trigger] out@[j])@ == o@[j].0@,
                decreases o@.len() - i,
            {
                out.push(o[i].0.clone());
                i = i + 1;
            }
            proof {
                let names = json::member_names(view);
                assert forall|k: int| 0 <= k < names.len() implies text::texts(out@)[k]
                    == names[k] by {
                    assert(view[k] == (o@[k].0@, json::json_view(o@[k].1)));
                    assert(out@[k]@ == o@[k].0@);
                }
                assert(text::texts(out@) =~= names);
            }
        },
        _ => {
            assert(text::texts(out@) =~= Seq::<Seq<char>>::empty());
        },
    }
    out
}

fn push_prefixed(lines: &mut Vec<String>, names: &Vec<String>, before: &str)
    ensures
        text::texts(final(lines)@) == text::texts(old(lines)@) + prefixed(
            text::texts(names@),
            before@,
        ),
{
    let ghost start = text::texts(lines@);
    let ghost p = prefixed(text::texts(names@), before@);
    let mut i: usize = 0;
    assert(start =~= start + p.take(0));
    while i < names.len()
        invariant
            i <= names@.len(),
            p == prefixed(text::texts(names@), before@),
            text::texts(lines@) == start + p.take(i as int),
        decreases names@.len() - i,
    {
        push_line(lines, text::concat2(before, names[i].as_str()));
        assert(p.take(i + 1) =~= p.take(i as int).push(p[i as int]));
        assert(start + p.take(i + 1) =~= (start + p.take(i as int)).push(p[i as int]));
        i = i + 1;
    }
    assert(p.take(i as int) =~= p);
}

/// The answer to `/mcp` for a configuration that was read.
pub fn mcp_lines(config: &Json, path: &str) -> (r: String)
    ensures
        r@ == mcp_text(config@, path@),
{
    let names: Vec<String> = match config.get("mcpServers") {
        Some(j) => names_of(j),
        None => {
            let none: Vec<String> = Vec::new();
            assert(text::texts(none@) =~= Seq::<Seq<char>>::empty());
            none
        },
    };
    let mut lines: Vec<String> = Vec::new();
    lines.push("MCP servers:".to_string());
    assert(text::texts(lines@) =~= seq!["MCP servers:"@]);
    if names.len() == 0 {
        push_line(&mut lines, "  (none)".to_string());
        assert(text::texts(lines@) =~= seq!["MCP servers:"@] + seq!["  (none)"@]);
    } else {
        push_prefixed(&mut lines, &names, "  - ");
    }
    push_line(&mut lines, text::concat2("config: ", path));
    text::joined(&lines, "\n")
}

/// The answer to `/mcp` for the text of a configuration file; none where the
/// text is no JSON.
pub fn mcp_reply(raw: &str, path: &str) -> (r: Option<String>)
    ensures
        match json::parsed(raw@) {
            Some(j) => text::opt_text(r) == Some(mcp_text(j, path@)),
            None => r is None,
        },
{
    match json::parse(raw) {
        Some(j) => Some(mcp_lines(&j, path)),
        None => None,
    }
}

/// The answer to `/mcp` where there is no configuration file.
pub fn mcp_missing(path: &str) -> (r: String)
    ensures
        r@ == "no .mcp.json found.\nconfig path: "@ + path@,
{
    text::concat2("no .mcp.json found.\nconfig path: ", path)
}

/// The line of a setting.
pub open spec fn setting_line(m: (Seq<char>, json::JsonView)) -> Seq<char> {
    match m.1 {
        json::JsonView::Array(a) => "  "@ + m.0 + ": ["@ + text::decimal(a.len()) + " items]"@,
        json::JsonView::Object(o) => "  "@ + m.0 + ": {"@ + text::decimal(o.len()) + " keys}"@,
        v => "  "@ + m.0 + ": "@ + json::rendered(v),
    }
}

/// The lines of the settings.
pub open spec fn settings_lines(j: json::JsonView) -> Seq<Seq<char>> {
    let members = match j {
        json::JsonView::Object(o) => Seq::new(o.len(), |i: int| setting_line(o[i])),
        _ => Seq::empty(),
    };
    seq![Seq::<char>::empty(), "Settings:"@] + members
}

/// The lines of the skills. `names` are in dictionary order; none means that
/// the directory does not exist.
pub open spec fn skill_lines(names: Option<Seq<Seq<char>>>, dir: Seq<char>) -> Seq<Seq<char>> {
    match names {
        Some(v) => (if v.len() == 0 {
            seq!["Skills: (none)"@]
        } else {
            seq!["Skills ("@ + text::decimal(v.len()) + "):"@] + prefixed(v, "  /"@)
        }).push("dir: "@ + dir),
        None => seq!["Skills: (none)"@, "dir: "@ + dir + " (not found)"@],
    }
}

/// The answer to `/skills`.
pub open spec fn skills_text(
    names: Option<Seq<Seq<char>>>,
    dir: Seq<char>,
    settings: Option<json::JsonView>,
) -> Seq<char> {
    lines_text(
        skill_lines(names, dir) + (match settings {
            Some(j) => settings_lines(j),
            None => Seq::empty(),
        }),
    )
}

/// The settings that the text of a file holds.
pub open spec fn read_settings(raw: Option<String>) -> Option<json::JsonView> {
    match raw {
        Some(t) => json::parsed(t@),
        None => None,
    }
}

fn setting_text(key: &str, value: &Json) -> (r: String)
    ensures
        r@ == setting_line((key@, value@)),
{
    let mut out: String = text::concat2("  ", key);
    match value {
        Json::Array(a) => {
            proof {
                json::lemma_json_views(a@);
            }
            out.append(": [");
            out.append(text::decimal_text(a.len() as u64).as_str());
            out.append(" items]");
        },
        Json::Object(o) => {
            proof {
                json::lemma_member_views(o@);
            }
            out.append(": {");
            out.append(text::decimal_text(o.len() as u64).as_str());
            out.append(" keys}");
        },
        _ => {
            out.append(": ");
            out.append(json::render(value).as_str());
        },
    }
    out
}

fn push_settings(lines: &mut Vec<String>, j: &Json)
    ensures
        text::texts(final(lines)@) == text::texts(old(lines)@) + settings_lines(j@),
{
    let ghost start = text::texts(lines@);
    let blank: String = String::new();
    assert(blank@ =~= Seq::<char>::empty());
    push_line(lines, blank);
    push_line(lines, "Settings:".to_string());
    let ghost head = text::texts(lines@);
    assert(head =~= start + seq![Seq::<char>::empty(), "Settings:"@]);
    match j {
        Json::Object(o) => {
            let ghost view = json::member_views(o@);
            let ghost members = Seq::new(view.len(), |i: int| setting_line(view[i]));
            proof {
                json::lemma_member_views(o@);
            }
            let mut i: usize = 0;
            assert(head =~= head + members.take(0));
            while i < o.len()
                invariant
                    i <= o@.len(),
                    view == json::member_views(o@),
                    view.len() == o@.len(),
                    members == Seq::new(view.len(), |i: int| setting_line(view[i])),
                    forall|j: int|
                        0 <= j < o@.len() ==> #[trigger] view[j] == (
                            o@[j].0@,
                            json::json_view(o@[j].1),
                        ),
                    text::texts(lines@) == head + members.take(i as int),
                decreases o@.len() - i,
            {
                let line: String = setting_text(o[i].0.as_str(), &o[i].1);
                assert(view[i as int] == (o@[i as int].0@, json::json_view(o@[i as int].1)));
                assert(line@ == members[i as int]);
                push_line(lines, line);
                assert(members.take(i + 1) =~= members.take(i as int).push(members[i as int]));
                assert(head + members.take(i + 1) =~= (head + members.take(i as int)).push(
                    members[i as int],
                ));
                i = i + 1;
            }
            assert(members.take(i as int) =~= members);
            assert(text::texts(lines@) =~= start + settings_lines(j@));
        },
        _ => {
            assert(text::texts(lines@) =~= start + settings_lines(j@));
        },
    }
}

/// The answer to `/skills`, for the names of the skill directories and the
/// text of the settings file, as far as they are there. Settings that are no
/// JSON are left out.
pub fn skills_reply(names: Option<Vec<String>>, dir: &str, settings: Option<String>) -> (r: String)
    ensures
        r@ == skills_text(
            match names {
                Some(n) => Some(text::in_dictionary_order(text::texts(n@))),
                None => None,
            },
            dir@,
            read_settings(settings),
        ),
{
    let mut lines: Vec<String> = Vec::new();
    assert(text::texts(lines@) =~= Seq::<Seq<char>>::empty());
    let ghost mut order: Seq<Seq<char>> = Seq::empty();
    match &names {
        Some(n) => {
            let sorted: Vec<String> = text::sorted_texts(n);
            proof {
                order = text::texts(sorted@);
            }
            if sorted.len() == 0 {
                push_line(&mut lines, "Skills: (none)".to_string());
                assert(text::texts(lines@) =~= seq!["Skills: (none)"@]);
            } else {
                push_line(
                    &mut lines,
                    text::concat3(
                        "Skills (",
                        text::decimal_text(sorted.len() as u64).as_str(),
                        "):",
                    ),
                );
                assert(text::texts(lines@) =~= seq![
                    "Skills ("@ + text::decimal(order.len()) + "):"@,
                ]);
                push_prefixed(&mut lines, &sorted, "  /");
            }
            push_line(&mut lines, text::concat2("dir: ", dir));
        },
        None => {
            push_line(&mut lines, "Skills: (none)".to_string());
            push_line(&mut lines, text::concat3("dir: ", dir, " (not found)"));
            assert(text::texts(lines@) =~= skill_lines(None, dir@));
        },
    }
    let ghost head = text::texts(lines@);
    let ghost listed: Option<Seq<Seq<char>>> = match names {
        Some(_) => Some(order),
        None => None,
    };
    assert(head == skill_lines(listed, dir@));
    let ghost parsed = read_settings(settings);
    match &settings {
        Some(t) => match json::parse(t.as_str()) {
            Some(j) => {
                push_settings(&mut lines, &j);
            },
            None => {
                assert(head =~= head + Seq::<Seq<char>>::empty());
            },
        },
        None => {
            assert(head =~= head + Seq::<Seq<char>>::empty());
        },
    }
    let r: String = text::joined(&lines, "\n");
    assert(r@ == skills_text(listed, dir@, parsed));
    r
}

// ── Schedules ───────────────────────────────────────────────────────────

/// The first eight characters of an id.
pub open spec fn short_id(id: Seq<char>) -> Seq<char> {
    if id.len() <= 8 {
        id
    } else {
        id.take(8)
    }
}

fn shorten(id: &str) -> (r: String)
    ensures
        r@ == short_id(id@),
{
    let v: Vec<char> = text::chars_of(id);
    let n: usize = if v.len() <= 8 {
        v.len()
    } else {
        8
    };
    assert(v@.subrange(0, n as int) =~= short_id(id@));
    text::string_of(&v, 0, n)
}

/// The answer to a schedule that was stored.
pub open spec fn added_text(e: schedule::ScheduleEntryView) -> Seq<char> {
    "scheduled (id="@ + short_id(e.id) + "): "@ + schedule::schedule_text(e.schedule)
}

/// The answer to a schedule that was stored.
pub fn added_reply(e: &ScheduleEntry) -> (r: String)
    ensures
        r@ == added_text(e@),
{
    let mut out: String = text::concat3("scheduled (id=", shorten(e.id.as_str()).as_str(), "): ");
    out.append(e.display_schedule().as_str());
    out
}

/// The answer to a schedule that could not be understood.
pub fn invalid_reply(error: &str) -> (r: String)
    ensures
        r@ == "invalid schedule: "@ + error@,
{
    text::concat2("invalid schedule: ", error)
}

/// The line of a schedule.
pub open spec fn schedule_line(e: schedule::ScheduleEntryView) -> Seq<char> {
    "  ["@ + short_id(e.id) + "] "@ + schedule::schedule_text(e.schedule) + " — "@ + e.prompt
}

/// The answer to `/schedule-list`.
pub open spec fn schedules_text(v: Seq<schedule::ScheduleEntryView>) -> Seq<char> {
    if v.len() == 0 {
        "no scheduled actions."@
    } else {
        lines_text(
            seq!["Scheduled actions:"@] + Seq::new(v.len(), |i: int| schedule_line(v[i])),
        )
    }
}

/// The answer to `/schedule-list`.
pub fn schedules_reply(v: &Vec<ScheduleEntry>) -> (r: String)
    ensures
        r@ == schedules_text(schedule::entry_views(v@)),
{
    if v.len() == 0 {
        return "no scheduled actions.".to_string();
    }
    let ghost views = schedule::entry_views(v@);
    let ghost wanted = Seq::new(views.len(), |i: int| schedule_line(views[i]));
    let mut lines: Vec<String> = Vec::new();
    lines.push("Scheduled actions:".to_string());
    assert(text::texts(lines@) =~= seq!["Scheduled actions:"@] + wanted.take(0));
    let mut i: usize = 0;
    while i < v.len()
        invariant
            i <= v@.len(),
            views == schedule::entry_views(v@),
            wanted == Seq::new(views.len(), |i: int| schedule_line(views[i])),
            text::texts(lines@) == seq!["Scheduled actions:"@] + wanted.take(i as int),
        decreases v@.len() - i,
    {
        let mut line: String = text::concat3("  [", shorten(v[i].id.as_str()).as_str(), "] ");
        line.append(v[i].display_schedule().as_str());
        line.append(" — ");
        line.append(v[i].prompt.as_str());
        assert(line@ == wanted[i as int]);
        push_line(&mut lines, line);
        assert(wanted.take(i + 1) =~= wanted.take(i as int).push(wanted[i as int]));
        assert(seq!["Scheduled actions:"@] + wanted.take(i + 1) =~= (seq!["Scheduled actions:"@]
            + wanted.take(i as int)).push(wanted[i as int]));
        i = i + 1;
    }
    assert(wanted.take(i as int) =~= wanted);
    text::joined(&lines, "\n")
}

/// `r` is the first schedule whose id starts with `prefix`.
pub open spec fn finds(v: Seq<ScheduleEntry>, prefix: Seq<char>, r: Option<usize>) -> bool {
    match r {
        Some(i) => i < v.len() && text::has_prefix(v[i as int].id@, prefix) && forall|j: int|
            0 <= j < i ==> !text::has_prefix((#[trigger] v[j]).id@, prefix),
        None => forall|j: int|
            0 <= j < v.len() ==> !text::has_prefix((#[trigger] v[j]).id@, prefix),
    }
}

/// The first schedule whose id starts with `prefix`.
pub fn schedule_by_prefix(v: &Vec<ScheduleEntry>, prefix: &str) -> (r: Option<usize>)
    ensures
        finds(v@, prefix@, r),
{
    let mut i: usize = 0;
    while i < v.len()
        invariant
            i <= v@.len(),
            forall|j: int| 0 <= j < i ==> !text::has_prefix((#[trigger] v@[j]).id@, prefix@),
        decreases v@.len() - i,
    {
        if text::starts_with(v[i].id.as_str(), prefix) {
            return Some(i);
        }
        i = i + 1;
    }
    None
}

/// The eight characters that are shown of an id find its schedule again, as
/// long as no earlier one is shown under the same.
pub proof fn shown_id_finds_the_schedule(v: Seq<ScheduleEntry>, i: int, r: Option<usize>)
    requires
        0 <= i < v.len(),
        v[i].id@.len() >= 8,
        forall|j: int| 0 <= j < i ==> short_id((#[trigger] v[j]).id@) != short_id(v[i].id@),
        finds(v, short_id(v[i].id@), r),
    ensures
        r == Some(i as usize),
{
    let shown = short_id(v[i].id@);
    assert(v[i].id@.subrange(0, shown.len() as int) =~= shown);
    assert forall|j: int| 0 <= j < i implies !text::has_prefix((#[trigger] v[j]).id@, shown) by {
        if text::has_prefix(v[j].id@, shown) {
            assert(short_id(v[j].id@) =~= shown);
        }
    }
}

/// The answer to `/mcp` and `/skills` where the clients share a directory.
pub fn no_client_dir() -> (r: &'static str)
    ensures
        r@ == "per-client isolation not configured."@,
{
    "per-client isolation not configured."
}

/// The answer to `/schedule-delete`: whether there was such a schedule.
pub open spec fn deleted_text(prefix: Seq<char>, found: bool) -> Seq<char> {
    (if found {
        "deleted schedule `"@
    } else {
        "no schedule matches `"@
    }) + prefix + "`"@
}

/// The answer to `/schedule-delete`: whether there was such a schedule.
pub fn deleted_reply(prefix: &str, found: bool) -> (r: String)
    ensures
        r@ == deleted_text(prefix@, found),
{
    if found {
        text::concat3("deleted schedule `", prefix, "`")
    } else {
        text::concat3("no schedule matches `", prefix, "`")
    }
}

/// The answer to `/agent` once the agent is switched.
pub fn switched_reply(agent: &str) -> (r: String)
    ensures
        r@ == "switched agent → `"@ + agent@ + "`"@,
{
    text::concat3("switched agent → `", agent, "`")
}

// ── Laws of commands ────────────────────────────────────────────────────

proof fn lemma_plan_names()
    ensures
        "help"@.len() == 4 && "help"@[0] == 'h' && "help"@[1] == 'e',
        "new"@.len() == 3 && "new"@[0] == 'n' && "new"@[1] == 'e',
        "reset"@.len() == 5 && "reset"@[0] == 'r' && "reset"@[1] == 'e',
        "clear"@.len() == 5 && "clear"@[0] == 'c' && "clear"@[1] == 'l',
        "agent"@.len() == 5 && "agent"@[0] == 'a' && "agent"@[1] == 'g',
        "agents"@.len() == 6 && "agents"@[0] == 'a' && "agents"@[1] == 'g',
        "resume"@.len() == 6 && "resume"@[0] == 'r' && "resume"@[1] == 'e',
        "mcp"@.len() == 3 && "mcp"@[0] == 'm' && "mcp"@[1] == 'c',
        "skills"@.len() == 6 && "skills"@[0] == 's' && "skills"@[1] == 'k',
        "yes"@.len() == 3 && "yes"@[0] == 'y' && "yes"@[1] == 'e',
        "no"@.len() == 2 && "no"@[0] == 'n' && "no"@[1] == 'o',
        "model"@.len() == 5 && "model"@[0] == 'm' && "model"@[1] == 'o',
        "dir"@.len() == 3 && "dir"@[0] == 'd' && "dir"@[1] == 'i',
        "effort"@.len() == 6 && "effort"@[0] == 'e' && "effort"@[1] == 'f',
        "budget"@.len() == 6 && "budget"@[0] == 'b' && "budget"@[1] == 'u',
        "tools"@.len() == 5 && "tools"@[0] == 't' && "tools"@[1] == 'o',
        "system"@.len() == 6 && "system"@[0] == 's' && "system"@[1] == 'y',
        "schedule"@.len() == 8 && "schedule"@[0] == 's' && "schedule"@[1] == 'c',
        "schedule_list"@.len() == 13 && "schedule_list"@[0] == 's' && "schedule_list"@[1] == 'c',
        "schedule_delete"@.len() == 15 && "schedule_delete"@[0] == 's' && "schedule_delete"@[1] == 'c',
{
    reveal_strlit("help");
    reveal_strlit("new");
    reveal_strlit("reset");
    reveal_strlit("clear");
    reveal_strlit("agent");
    reveal_strlit("agents");
    reveal_strlit("resume");
    reveal_strlit("mcp");
    reveal_strlit("skills");
    reveal_strlit("yes");
    reveal_strlit("no");
    reveal_strlit("model");
    reveal_strlit("dir");
    reveal_strlit("effort");
    reveal_strlit("budget");
    reveal_strlit("tools");
    reveal_strlit("system");
    reveal_strlit("schedule");
    reveal_strlit("schedule_list");
    reveal_strlit("schedule_delete");
}

/// The commands that need no argument do what they say whatever stands behind them.
pub proof fn plain_commands_do_what_they_say(args: Seq<Seq<char>>)
    ensures
        planned("help"@, args) == PlanView::ShowHelp,
        planned("agents"@, args) == PlanView::ShowAgents,
        planned("mcp"@, args) == PlanView::ShowMcp,
        planned("skills"@, args) == PlanView::ShowSkills,
        planned("schedule_list"@, args) == PlanView::ListSchedules,
        planned("new"@, args) == (PlanView::Reset {
            reply: "session reset — next message starts fresh."@,
        }),
        planned("reset"@, args) == (PlanView::Reset { reply: "session reset."@ }),
        planned("clear"@, args) == (PlanView::Clear {
            reply: "session cleared — all history wiped."@,
        }),
{
    lemma_plan_names();
}

/// A command about one thing is about its first argument: `/yes` allows that
/// request, `/no` refuses it, `/agent` switches to that agent, `/resume` goes on with
/// that session and `/schedule-delete` removes that schedule. `/model`, `/effort` and
/// `/budget` set that value.
pub proof fn commands_are_about_their_first_argument(args: Seq<Seq<char>>)
    requires
        args.len() > 0,
        args[0].len() > 0,
    ensures
        planned("yes"@, args) == (PlanView::Decide { id: args[0], allow: true }),
        planned("no"@, args) == (PlanView::Decide { id: args[0], allow: false }),
        planned("agent"@, args) == (PlanView::SwitchAgent { agent: args[0] }),
        planned("resume"@, args) == (PlanView::ResumeSession { id: args[0] }),
        planned("schedule_delete"@, args) == (PlanView::DeleteSchedule { prefix: args[0] }),
        planned("model"@, args) == (PlanView::Override {
            name: "model"@,
            value: args[0],
            reply: "model"@ + " → `"@ + args[0] + "` — session reset."@,
        }),
        planned("effort"@, args) == (PlanView::Override {
            name: "effort"@,
            value: args[0],
            reply: "effort"@ + " → `"@ + args[0] + "` — session reset."@,
        }),
        planned("budget"@, args) == (PlanView::Override {
            name: "budget"@,
            value: args[0],
            reply: "budget"@ + " → `"@ + args[0] + "` — session reset."@,
        }),
{
    lemma_plan_names();
}

/// Without an argument such a command says how it is used, and `/resume` lists the
/// sessions.
pub proof fn bare_commands_say_how_they_are_used()
    ensures
        planned("resume"@, Seq::empty()) == PlanView::ListSessions,
        planned("yes"@, Seq::empty()) == PlanView::Reply("usage: /yes <id>"@),
        planned("no"@, Seq::empty()) == PlanView::Reply("usage: /no <id>"@),
        planned("agent"@, Seq::empty()) == PlanView::Reply("usage: /agent <name>"@),
        planned("schedule_delete"@, Seq::empty()) == PlanView::Reply(
            "usage: /schedule-delete <id>"@,
        ),
        planned("model"@, Seq::empty()) == PlanView::Reply("usage: "@ + "/model <name>"@),
        planned("dir"@, Seq::empty()) == PlanView::Reply("usage: "@ + "/dir <path>"@),
        planned("system"@, Seq::empty()) == PlanView::Reply("usage: "@ + "/system <text>"@),
        planned("tools"@, Seq::empty()) is Reply,
        planned("schedule"@, Seq::empty()) is Reply,
{
    lemma_plan_names();
}

/// `/dir` and `/system` take everything behind them as one text.
pub proof fn texts_are_taken_whole(args: Seq<Seq<char>>)
    requires
        text::join(args, " "@).len() > 0,
    ensures
        planned("dir"@, args) matches PlanView::Override { name, value, reply } && name
            == "add_dir"@ && value == text::join(args, " "@),
        planned("system"@, args) matches PlanView::Override { name, value, reply } && name
            == "append_system_prompt"@ && value == text::join(args, " "@),
{
    lemma_plan_names();
}

/// `/tools allow` and `/tools deny` are about the tool behind them, and `/tools clear`
/// empties both lists.
pub proof fn tools_are_allowed_and_denied(tool: Seq<char>, more: Seq<Seq<char>>)
    requires
        tool.len() > 0,
    ensures
        planned("tools"@, seq!["allow"@, tool]) == (PlanView::Override {
            name: "allow_tool"@,
            value: tool,
            reply: "allowed `"@ + tool + "` — session reset."@,
        }),
        planned("tools"@, seq!["deny"@, tool]) == (PlanView::Override {
            name: "deny_tool"@,
            value: tool,
            reply: "denied `"@ + tool + "` — session reset."@,
        }),
        planned("tools"@, seq!["clear"@] + more) == (PlanView::Override {
            name: "clear_tools"@,
            value: Seq::empty(),
            reply: "tool lists cleared — session reset."@,
        }),
        planned("tools"@, seq!["allow"@]) is Reply,
        planned("tools"@, seq!["deny"@]) is Reply,
{
    lemma_plan_names();
    reveal_strlit("allow");
    reveal_strlit("deny");
    assert("allow"@.len() == 5 && "allow"@[0] == 'a' && "deny"@.len() == 4);
    assert(seq!["allow"@, tool].skip(1) =~= seq![tool]);
    assert(seq!["deny"@, tool].skip(1) =~= seq![tool]);
    assert(seq!["allow"@].skip(1) =~= Seq::<Seq<char>>::empty());
    assert(seq!["deny"@].skip(1) =~= Seq::<Seq<char>>::empty());
    assert((seq!["clear"@] + more)[0] == "clear"@);
}

/// `/schedule` takes its last argument as the prompt and those before it as the
/// time.
pub proof fn last_argument_is_the_prompt(
    time: Seq<Seq<char>>,
    prompt: Seq<char>,
    a: Seq<char>,
    b: Seq<char>,
)
    requires
        time.len() > 0,
    ensures
        planned("schedule"@, time.push(prompt)) == (PlanView::AddSchedule {
            when: text::join(time, " "@),
            prompt,
        }),
        planned("schedule"@, seq![a, b, prompt]) == (PlanView::AddSchedule {
            when: a + " "@ + b,
            prompt,
        }),
        planned("schedule"@, seq![a]) is Reply,
{
    lemma_plan_names();
    assert(time.push(prompt).drop_last() =~= time);
    let three = seq![a, b, prompt];
    assert(three.drop_last() =~= seq![a, b]);
    assert(seq![a, b].drop_last() =~= seq![a]);
    assert(text::join(seq![a, b], " "@) == text::join(seq![a], " "@) + " "@ + b);
}

/// A word that is no command is said to be none.
pub proof fn other_commands_are_not_implemented(name: Seq<char>, args: Seq<Seq<char>>)
    requires
        name.len() > 15,
    ensures
        planned(name, args) == PlanView::Reply("/"@ + name + " not implemented"@),
{
    lemma_plan_names();
}

// ── Laws of answers ─────────────────────────────────────────────────────

/// The texts one behind the other, each with `mark` before it.
pub open spec fn listing(mark: Seq<char>, v: Seq<Seq<char>>) -> Seq<char>
    decreases v.len(),
{
    if v.len() == 0 {
        Seq::empty()
    } else {
        listing(mark, v.drop_last()) + mark + v.last()
    }
}

proof fn lemma_listing(h: Seq<char>, v: Seq<Seq<char>>)
    ensures
        lines_text(seq![h] + v) == h + listing("\n"@, v),
    decreases v.len(),
{
    let w = seq![h] + v;
    if v.len() == 0 {
        assert(w[0] == h);
        assert(h + listing("\n"@, v) =~= h);
    } else {
        assert(w.drop_last() =~= seq![h] + v.drop_last());
        assert(w.last() == v.last());
        lemma_listing(h, v.drop_last());
        assert(lines_text(w) =~= h + listing("\n"@, v));
    }
}

proof fn lemma_listing_parts(v: Seq<Seq<char>>, w: Seq<Seq<char>>)
    ensures
        listing("\n"@, v + w) == listing("\n"@, v) + listing("\n"@, w),
    decreases w.len(),
{
    if w.len() == 0 {
        assert(v + w =~= v);
        assert(listing("\n"@, v) + listing("\n"@, w) =~= listing("\n"@, v));
    } else {
        assert((v + w).drop_last() =~= v + w.drop_last());
        assert((v + w).last() == w.last());
        lemma_listing_parts(v, w.drop_last());
        assert(listing("\n"@, v + w) =~= listing("\n"@, v) + listing("\n"@, w));
    }
}

proof fn lemma_listing_one(x: Seq<char>)
    ensures
        listing("\n"@, seq![x]) == "\n"@ + x,
{
    assert(seq![x].drop_last() =~= Seq::<Seq<char>>::empty());
    assert(listing("\n"@, Seq::<Seq<char>>::empty()) =~= Seq::<char>::empty());
    assert(listing("\n"@, seq![x]) =~= "\n"@ + x);
}

proof fn lemma_prefixed(v: Seq<Seq<char>>, before: Seq<char>)
    ensures
        listing("\n"@, prefixed(v, before)) == listing("\n"@ + before, v),
    decreases v.len(),
{
    let p = prefixed(v, before);
    if v.len() > 0 {
        assert(p.drop_last() =~= prefixed(v.drop_last(), before));
        lemma_prefixed(v.drop_last(), before);
        assert(listing("\n"@, p) =~= listing("\n"@ + before, v));
    }
}

/// `/help` has a line for each command, with its name, where it comes from and what
/// it does.
pub proof fn help_has_a_line_for_each(v: Seq<CommandSpec>, c: CommandSpec)
    ensures
        help_text(Seq::empty()) == "Available commands:"@,
        help_text(v.push(c)) == help_text(v) + "\n"@ + ("  /"@ + c.name@ + "  ("@ + (
        match c.source {
            Source::Builtin => "builtin"@,
            Source::Config => "config"@,
            Source::Agent => "agent"@,
        }) + ")  — "@ + c.description@),
{
    let w = v.push(c);
    let h = "Available commands:"@;
    let a = Seq::new(v.len(), |i: int| help_line(v[i]));
    let b = Seq::new(w.len(), |i: int| help_line(w[i]));
    assert(b =~= a.push(help_line(c)));
    assert(b.drop_last() =~= a);
    lemma_listing(h, a);
    lemma_listing(h, b);
    assert(help_text(w) =~= help_text(v) + "\n"@ + help_line(c));
    let none = Seq::<CommandSpec>::empty();
    assert(Seq::new(none.len(), |i: int| help_line(none[i])) =~= Seq::<Seq<char>>::empty());
    lemma_listing(h, Seq::empty());
    assert(help_text(none) =~= h);
}

/// `/agents` names the agents, and the one that is used where none is chosen.
pub proof fn agents_are_named(names: Seq<Seq<char>>, default: Seq<char>)
    ensures
        agents_text(names, default) == "agents available: "@ + text::join(names, ", "@)
            + "\ndefault: "@ + default,
{
}

/// The list of sessions starts with the one that is active, then has the earlier
/// ones from the latest back, at most twenty, and then says how many more there are.
pub proof fn sessions_are_listed_latest_first(e: crate::registry::RegistryView, i: int, id: Seq<char>)
    ensures
        session_lines(e).len() == (if e.active is Some {
            1int
        } else {
            0
        }) + (if e.past.len() > 20 {
            21
        } else {
            e.past.len() as int
        }),
        e.active == Some(id) ==> session_lines(e)[0] == "▶ "@ + id + " (active, agent="@ + e.agent
            + ")"@,
        0 <= i < e.past.len() && i < 20 ==> session_lines(e)[i + (if e.active is Some {
            1int
        } else {
            0
        })] == "  "@ + e.past[e.past.len() - 1 - i].1 + " (agent="@ + e.past[e.past.len() - 1
            - i].0 + ")"@,
        e.past.len() > 20 ==> session_lines(e).last() == "  … and "@ + text::decimal(
            (e.past.len() - 20) as nat,
        ) + " more"@,
        e.active is Some || e.past.len() > 0 ==> sessions_text(Some(e)) == session_lines(e)[0]
            + listing("\n"@, session_lines(e).drop_first()),
        e.active is None && e.past.len() == 0 ==> sessions_text(Some(e)) == "no sessions found."@,
        sessions_text(None) == "no sessions found."@,
{
    let v = session_lines(e);
    if v.len() > 0 {
        assert(v =~= seq![v[0]] + v.drop_first());
        lemma_listing(v[0], v.drop_first());
    }
}

/// `/mcp` lists the servers of the configuration and says where it is.
pub proof fn servers_are_listed(config: json::JsonView, o: Seq<(Seq<char>, json::JsonView)>, path: Seq<char>)
    requires
        config.get("mcpServers"@) == Some(json::JsonView::Object(o)),
    ensures
        json::member_names(o).len() > 0 ==> mcp_text(config, path) == "MCP servers:"@ + listing(
            "\n"@ + "  - "@,
            json::member_names(o),
        ) + "\n"@ + ("config: "@ + path),
        json::member_names(o).len() == 0 ==> mcp_text(config, path) == "MCP servers:"@ + ("\n"@
            + "  (none)"@) + "\n"@ + ("config: "@ + path),
{
    let h = "MCP servers:"@;
    let names = json::member_names(o);
    let servers = if names.len() == 0 {
        seq!["  (none)"@]
    } else {
        prefixed(names, "  - "@)
    };
    let end = "config: "@ + path;
    assert((seq![h] + servers).push(end) =~= seq![h] + servers.push(end));
    lemma_listing(h, servers.push(end));
    assert(servers.push(end).drop_last() =~= servers);
    lemma_prefixed(names, "  - "@);
    lemma_listing_one("  (none)"@);
    assert(mcp_text(config, path) =~= h + listing("\n"@, servers) + "\n"@ + end);
}

/// `/skills` lists the skills that were found and says where; where the directory is
/// missing it says so.
pub proof fn skills_are_listed(names: Seq<Seq<char>>, dir: Seq<char>)
    ensures
        names.len() > 0 ==> skills_text(Some(names), dir, None) == "Skills ("@ + text::decimal(
            names.len(),
        ) + "):"@ + listing("\n"@ + "  /"@, names) + "\n"@ + ("dir: "@ + dir),
        skills_text(Some(Seq::empty()), dir, None) == "Skills: (none)"@ + ("\n"@ + ("dir: "@ + dir)),
        skills_text(None, dir, None) == "Skills: (none)"@ + ("\n"@ + ("dir: "@ + dir
            + " (not found)"@)),
{
    let none = Seq::<Seq<char>>::empty();
    let end = "dir: "@ + dir;
    if names.len() > 0 {
        let h = "Skills ("@ + text::decimal(names.len()) + "):"@;
        let p = prefixed(names, "  /"@);
        assert(skill_lines(Some(names), dir) + none =~= seq![h] + p.push(end));
        lemma_listing(h, p.push(end));
        assert(p.push(end).drop_last() =~= p);
        lemma_prefixed(names, "  /"@);
        assert(skills_text(Some(names), dir, None) =~= h + listing("\n"@ + "  /"@, names) + "\n"@
            + end);
    }
    let h = "Skills: (none)"@;
    assert(skill_lines(Some(none), dir) + none =~= seq![h] + seq![end]);
    lemma_listing(h, seq![end]);
    lemma_listing_one(end);
    let gone = "dir: "@ + dir + " (not found)"@;
    assert(skill_lines(None, dir) + none =~= seq![h] + seq![gone]);
    lemma_listing(h, seq![gone]);
    lemma_listing_one(gone);
}

/// The settings come behind the skills: a list with its length, an object with the
/// number of its keys, anything else as it is written.
pub proof fn settings_are_shown(
    names: Option<Seq<Seq<char>>>,
    dir: Seq<char>,
    o: Seq<(Seq<char>, json::JsonView)>,
    name: Seq<char>,
    a: Seq<json::JsonView>,
    m: Seq<(Seq<char>, json::JsonView)>,
    t: Seq<char>,
)
    ensures
        skills_text(names, dir, Some(json::JsonView::Object(o))) == skills_text(names, dir, None)
            + "\n"@ + ("\n"@ + "Settings:"@) + listing(
            "\n"@,
            Seq::new(o.len(), |i: int| setting_line(o[i])),
        ),
        setting_line((name, json::JsonView::Array(a))) == "  "@ + name + ": ["@ + text::decimal(
            a.len(),
        ) + " items]"@,
        setting_line((name, json::JsonView::Object(m))) == "  "@ + name + ": {"@ + text::decimal(
            m.len(),
        ) + " keys}"@,
        setting_line((name, json::JsonView::Str(t))) == "  "@ + name + ": "@ + json::rendered(
            json::JsonView::Str(t),
        ),
{
    let none = Seq::<Seq<char>>::empty();
    let s = skill_lines(names, dir);
    let w = Seq::new(o.len(), |i: int| setting_line(o[i]));
    let more = seq![Seq::<char>::empty(), "Settings:"@] + w;
    assert(more == settings_lines(json::JsonView::Object(o)));
    assert(s + none =~= s);
    assert(s =~= seq![s[0]] + s.drop_first());
    let head = s.drop_first();
    lemma_listing(s[0], head);
    assert(s + more =~= seq![s[0]] + (head + more));
    lemma_listing(s[0], head + more);
    lemma_listing_parts(head, more);
    let two = seq![Seq::<char>::empty(), "Settings:"@];
    lemma_listing_parts(two, w);
    assert(two =~= seq![Seq::<char>::empty()] + seq!["Settings:"@]);
    lemma_listing_parts(seq![Seq::<char>::empty()], seq!["Settings:"@]);
    lemma_listing_one(Seq::<char>::empty());
    lemma_listing_one("Settings:"@);
    assert(skills_text(names, dir, Some(json::JsonView::Object(o))) =~= skills_text(
        names,
        dir,
        None,
    ) + "\n"@ + ("\n"@ + "Settings:"@) + listing("\n"@, w));
}

/// The list of schedules has a line for each, with the start of its id, its time and
/// its prompt.
pub proof fn schedules_are_listed(
    v: Seq<schedule::ScheduleEntryView>,
    e: schedule::ScheduleEntryView,
)
    requires
        e.id.len() >= 8,
    ensures
        schedules_text(Seq::empty()) == "no scheduled actions."@,
        schedules_text(v.push(e)) == (if v.len() == 0 {
            "Scheduled actions:"@
        } else {
            schedules_text(v)
        }) + "\n"@ + ("  ["@ + e.id.take(8) + "] "@ + schedule::schedule_text(e.schedule) + " — "@
            + e.prompt),
        added_text(e) == "scheduled (id="@ + e.id.take(8) + "): "@ + schedule::schedule_text(
            e.schedule,
        ),
{
    let h = "Scheduled actions:"@;
    let w = v.push(e);
    let a = Seq::new(v.len(), |i: int| schedule_line(v[i]));
    let b = Seq::new(w.len(), |i: int| schedule_line(w[i]));
    assert(b =~= a.push(schedule_line(e)));
    assert(b.drop_last() =~= a);
    lemma_listing(h, a);
    lemma_listing(h, b);
    assert(e.id.take(8) =~= short_id(e.id));
    if v.len() == 0 {
        assert(a =~= Seq::<Seq<char>>::empty());
        assert(h + listing("\n"@, a) =~= h);
    }
}

/// The name of a tool may have several words.
pub proof fn tool_names_may_have_several_words(words: Seq<Seq<char>>)
    requires
        text::join(words, " "@).len() > 0,
    ensures
        planned("tools"@, seq!["allow"@] + words) matches PlanView::Override { name, value, reply }
            && name == "allow_tool"@ && value == text::join(words, " "@),
        planned("tools"@, seq!["deny"@] + words) matches PlanView::Override { name, value, reply }
            && name == "deny_tool"@ && value == text::join(words, " "@),
{
    lemma_plan_names();
    reveal_strlit("allow");
    reveal_strlit("deny");
    assert("allow"@.len() == 5 && "allow"@[0] == 'a' && "deny"@.len() == 4);
    assert((seq!["allow"@] + words).skip(1) =~= words);
    assert((seq!["deny"@] + words).skip(1) =~= words);
    assert((seq!["allow"@] + words)[0] == "allow"@);
    assert((seq!["deny"@] + words)[0] == "deny"@);
}

} // verus!
