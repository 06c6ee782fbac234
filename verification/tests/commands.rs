//! Slash commands and their templates.

use ai_agent_bridge::builtins::{builtin_registry, help_reply, plan_builtin, Plan};
use ai_agent_bridge::commands::{
    expand_template, parse_command_line, CommandRegistry, CommandSpec, RegisterError, Source,
};

fn spec(name: &str, src: Source, template: &str) -> CommandSpec {
    CommandSpec {
        name: name.into(),
        source: src,
        template: template.into(),
        description: "".into(),
    }
}

#[test]
fn normalize_case_and_dash() {
    assert_eq!(CommandRegistry::normalize("/MyCmd"), "mycmd");
    assert_eq!(CommandRegistry::normalize("/my-cmd"), "my_cmd");
    assert_eq!(CommandRegistry::normalize("my_cmd"), "my_cmd");
    assert_eq!(CommandRegistry::normalize("/ÄB"), "äb");
}

#[test]
fn builtin_collision_rejected() {
    let mut reg = CommandRegistry::new();
    assert!(reg.register(spec("reset", Source::Builtin, "reset")).is_ok());
    match reg.register(spec("reset", Source::Config, "do other")) {
        Err(err) => assert!(matches!(err, RegisterError::Conflict { .. })),
        Ok(()) => panic!("accepted"),
    }
}

#[test]
fn template_positional_and_star() {
    let mut reg = CommandRegistry::new();
    assert!(reg.register(spec("repeat", Source::Builtin, "{{1}}: {{2*}}")).is_ok());
    assert_eq!(
        reg.expand("repeat", &["TODO", "fix", "the", "bug"]),
        Some("TODO: fix the bug".into())
    );
}

#[test]
fn template_args_alias() {
    let mut reg = CommandRegistry::new();
    assert!(reg.register(spec("echo", Source::Builtin, "→ {{args}}")).is_ok());
    assert_eq!(reg.expand("echo", &["a", "b"]), Some("→ a b".into()));
}

#[test]
fn parse_handles_quotes() {
    let (name, args) = parse_command_line("/say \"hello world\" two").unwrap();
    assert_eq!(name, "say");
    assert_eq!(args, vec!["hello world".to_string(), "two".to_string()]);
}

#[test]
fn parse_returns_none_without_slash() {
    assert!(parse_command_line("plain text").is_none());
}

#[test]
fn expand_simple_basic_template() {
    let result = expand_template("say {{1}}", &["hello"]);
    assert_eq!(result, "say hello");
}

#[test]
fn expand_simple_with_star_and_args() {
    let result = expand_template("{{1}}: {{2*}}", &["TODO", "fix", "the", "bug"]);
    assert_eq!(result, "TODO: fix the bug");
}

#[test]
fn expand_simple_args_alias() {
    let result = expand_template("→ {{args}}", &["a", "b"]);
    assert_eq!(result, "→ a b");
}

#[test]
fn commands_are_found_under_any_spelling() {
    let mut reg = CommandRegistry::new();
    assert!(reg.register(spec("My-Cmd", Source::Config, "x")).is_ok());
    assert!(reg.get("my_cmd").is_some());
    assert!(reg.get("/MY-CMD").is_some());
    assert!(reg.get("other").is_none());
    assert_eq!(reg.expand("other", &[]), None);
}

#[test]
fn help_names_every_builtin() {
    let help = help_reply(&builtin_registry());
    for name in [
        "/help", "/new", "/reset", "/clear", "/agent", "/agents", "/resume", "/mcp", "/skills",
        "/yes", "/no", "/model", "/dir", "/effort", "/budget", "/tools", "/system", "/schedule",
        "/schedule-list", "/schedule-delete",
    ] {
        assert!(help.contains(&format!("  {name}  (builtin)")), "{name} missing in {help}");
    }
}

fn plan(name: &str, args: &[&str]) -> Plan {
    plan_builtin(name, &args.iter().map(|a| a.to_string()).collect())
}

#[test]
fn builtins_plan_their_effects() {
    assert_eq!(plan("reset", &[]), Plan::Reset { reply: "session reset.".into() });
    assert_eq!(plan("agent", &["copilot"]), Plan::SwitchAgent { agent: "copilot".into() });
    assert_eq!(plan("agent", &[]), Plan::Reply("usage: /agent <name>".into()));
    assert_eq!(plan("yes", &["r1"]), Plan::Decide { id: "r1".into(), allow: true });
    assert_eq!(plan("no", &["r1"]), Plan::Decide { id: "r1".into(), allow: false });
    assert_eq!(plan("resume", &[]), Plan::ListSessions);
    assert_eq!(plan("resume", &["s1"]), Plan::ResumeSession { id: "s1".into() });
    assert_eq!(
        plan("tools", &["allow", "Bash(git", "*)"]),
        Plan::Override {
            name: "allow_tool".into(),
            value: "Bash(git *)".into(),
            reply: "allowed `Bash(git *)` — session reset.".into(),
        }
    );
    assert_eq!(
        plan("schedule", &["in", "1h", "test prompt"]),
        Plan::AddSchedule { when: "in 1h".into(), prompt: "test prompt".into() }
    );
    assert!(matches!(plan("schedule", &[]), Plan::Reply(r) if r.starts_with("usage:")));
}

#[test]
fn quoted_text_is_one_word() {
    let (name, args) = parse_command_line("/say \"two words\" three").unwrap();
    assert_eq!(name, "say");
    assert_eq!(args, vec!["two words".to_string(), "three".to_string()]);
}
