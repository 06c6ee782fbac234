//! The engine: routing, sessions, agents and schedules, without a network.

use ai_agent_bridge::admin::{healthz, metrics, sessions};
use ai_agent_bridge::builtins::{
    agents_reply, deleted_reply, help_reply, mcp_missing, mcp_reply, no_client_dir, plan_builtin,
    schedule_by_prefix, schedules_reply, sessions_reply, skills_reply, switched_reply, Plan,
};
use ai_agent_bridge::commands::{CommandSpec, Source};
use ai_agent_bridge::echo::EchoAgent;
use ai_agent_bridge::engine::{new_schedule, Claim, Engine, Route};
use ai_agent_bridge::registry::{Outcome, RegistryEntry, SessionRegistry};
use ai_agent_bridge::schedule::{ScheduleEntry, ScheduleKind};
use ai_agent_bridge::scheduler::{add_schedule, delete_schedule, tick};
use ai_agent_bridge::session::{Action, Actor, Cmd, Input};
use ai_agent_bridge::store::StateDb;
use ai_agent_bridge::types::{now_ms, Event, Message, ReplyCtx, SessionKey};

const BOOT: i64 = 1_700_000_000_000;

const DONE: Outcome = Outcome { read: true, stored: true };

fn registry() -> SessionRegistry {
    SessionRegistry::in_memory().ok().unwrap()
}

fn engine() -> Engine {
    Engine::builder()
        .add_agent("echo")
        .add_agent("echo2")
        .default_agent("echo")
        .platform("mock")
        .build(BOOT)
        .unwrap()
}

fn make_msg(key: SessionKey, text: &str) -> Message {
    Message {
        key,
        text: text.into(),
        attachments: vec![],
        reply_ctx: ReplyCtx { user: Some("u1".into()), ..Default::default() },
        timestamp_ms: 0,
    }
}

/// One turn of the echo agent through an actor: what is posted.
fn echo_turn(actor: &mut Actor, prompt: &str) -> Vec<String> {
    let session = EchoAgent.start_session();
    let mut actions = actor.step(
        Input::Command(Cmd::Send {
            prompt: prompt.into(),
            attachments: vec![],
            reply_ctx: ReplyCtx::default(),
        }),
        0,
    );
    actions.extend(actor.step(Input::PromptSent, 1));
    for e in session.send(prompt) {
        actions.extend(actor.step(Input::AgentEvent(e), 2));
    }
    actions
        .into_iter()
        .filter_map(|a| match a {
            Action::Reply(t) => Some(t),
            _ => None,
        })
        .collect()
}

#[test]
fn echo_round_trip() {
    let mut engine = engine();
    let mut reg = registry();
    let key = SessionKey::new("mock", "u1");
    let route = engine.route(&make_msg(key.clone(), "hello"));
    assert_eq!(route, Route::Prompt { agent: None, prompt: "hello".into() });
    let claim = engine.claim_session(&key, &reg);
    assert_eq!(claim, Claim::Start { agent: "echo".into(), resume: None });
    engine.spawned(&key, 7, "echo".into(), "echo-1".into(), &mut reg);
    assert_eq!(engine.claim_session(&key, &reg), Claim::Existing(7));
    assert_eq!(reg.last_session_id(&key).as_deref(), Some("echo-1"));
    let mut actor = Actor::new(true, ReplyCtx::default(), 1_000, 0);
    assert_eq!(echo_turn(&mut actor, "hello"), vec!["echo: hello".to_string()]);
}

#[test]
fn stale_event_ignored() {
    let engine = engine();
    let mut msg = make_msg(SessionKey::new("t", "u1"), "stale");
    msg.timestamp_ms = 1;
    assert_eq!(engine.route(&msg), Route::Stale);
    msg.timestamp_ms = BOOT;
    assert!(matches!(engine.route(&msg), Route::Prompt { .. }));
}

#[test]
fn switch_agent_success() {
    let mut engine = engine();
    let mut reg = registry();
    let key = SessionKey::new("t", "u1");
    assert!(engine.switch_agent(&key, "echo", &mut reg).is_ok());
    assert_eq!(switched_reply("echo"), "switched agent → `echo`");
}

#[test]
fn agent_switch_unknown_returns_error() {
    let mut engine = engine();
    let mut reg = registry();
    let key = SessionKey::new("mock", "ux");
    assert_eq!(
        engine.switch_agent(&key, "no-such", &mut reg),
        Err("unknown agent `no-such` (available: echo, echo2)".to_string())
    );
}

#[test]
fn switching_closes_and_archives() {
    let mut engine = engine();
    let mut reg = registry();
    let key = SessionKey::new("mock", "u1");
    engine.spawned(&key, 3, "echo".into(), "s1".into(), &mut reg);
    assert_eq!(engine.switch_agent(&key, "echo2", &mut reg), Ok((Some(3), DONE)));
    assert_eq!(
        engine.claim_session(&key, &reg),
        Claim::Start { agent: "echo2".into(), resume: None }
    );
    assert_eq!(
        reg.get_session(&key).unwrap().past_agent_session_ids,
        vec![("echo".to_string(), "s1".to_string())]
    );
}

#[test]
fn new_clears_active_session() {
    let mut engine = engine();
    let mut reg = registry();
    let key = SessionKey::new("mock", "u2");
    engine.spawned(&key, 1, "echo".into(), "s1".into(), &mut reg);
    match engine.route(&make_msg(key.clone(), "/new")) {
        Route::Builtin { name, args } => match plan_builtin(&name, &args) {
            Plan::Reset { reply } => assert!(reply.contains("session reset")),
            other => panic!("{other:?}"),
        },
        other => panic!("{other:?}"),
    }
    assert_eq!(engine.reset_session(&key, &mut reg), (Some(1), DONE));
    assert_eq!(reg.last_session_id(&key), None);
    assert_eq!(engine.session_handle(&key), None);
}

#[test]
fn clear_wipes_all_history() {
    let mut engine = engine();
    let mut reg = registry();
    let key = SessionKey::new("mock", "uc");
    engine.spawned(&key, 1, "echo".into(), "s1".into(), &mut reg);
    match engine.route(&make_msg(key.clone(), "/clear")) {
        Route::Builtin { name, args } => {
            assert!(matches!(plan_builtin(&name, &args), Plan::Clear { reply } if reply.contains("history wiped")))
        }
        other => panic!("{other:?}"),
    }
    assert_eq!(engine.clear_session(&key, &mut reg), Some(1));
    assert!(reg.get_session(&key).is_none());
}

#[test]
fn unknown_slash_replies_help_hint() {
    let engine = engine();
    match engine.route(&make_msg(SessionKey::new("mock", "uu"), "/zonk x")) {
        Route::Unknown { reply } => assert_eq!(reply, "unknown command `/zonk` — try /help"),
        other => panic!("{other:?}"),
    }
}

#[test]
fn max_sessions_rejects_overflow() {
    let mut engine = Engine::builder()
        .add_agent("echo")
        .default_agent("echo")
        .platform("mock")
        .max_sessions(2)
        .build(BOOT)
        .unwrap();
    let mut reg = registry();
    for (i, user) in ["u-a", "u-b"].iter().enumerate() {
        let key = SessionKey::new("mock", user);
        assert!(matches!(engine.claim_session(&key, &reg), Claim::Start { .. }));
        engine.spawned(&key, i as u64, "echo".into(), format!("s{i}"), &mut reg);
    }
    match engine.claim_session(&SessionKey::new("mock", "u-c"), &reg) {
        Claim::Full { reply, error } => {
            assert!(reply.contains("at capacity"));
            assert_eq!(error, "max_sessions (2) reached");
        }
        other => panic!("{other:?}"),
    }
    assert_eq!(engine.claim_session(&SessionKey::new("mock", "u-a"), &reg), Claim::Existing(0));
}

#[test]
fn multi_platform_routes_to_correct_platform() {
    let engine = Engine::builder()
        .add_agent("echo")
        .default_agent("echo")
        .add_platform("line")
        .add_platform("slack")
        .build(BOOT)
        .unwrap();
    assert_eq!(engine.platform_for(&SessionKey::new("line", "u1")), 0);
    assert_eq!(engine.platform_for(&SessionKey::new("slack", "u2")), 1);
    assert_eq!(engine.platform_for(&SessionKey::new("other", "u3")), 0);
}

#[test]
fn prefix_routing_dispatches_to_named_agent() {
    let mut engine = engine();
    let mut reg = registry();
    let key = SessionKey::new("mock", "u1");
    match engine.route(&make_msg(key.clone(), "@echo2 hello")) {
        Route::Prompt { agent: Some(agent), prompt } => {
            assert_eq!(agent, "echo2");
            assert_eq!(prompt, "hello");
            assert_eq!(engine.address_agent(&key, &agent, &mut reg), Ok(Some((None, DONE))));
        }
        other => panic!("{other:?}"),
    }
    assert_eq!(
        engine.claim_session(&key, &reg),
        Claim::Start { agent: "echo2".into(), resume: None }
    );
}

#[test]
fn prefix_routing_unknown_agent_falls_through() {
    let engine = engine();
    assert_eq!(
        engine.route(&make_msg(SessionKey::new("mock", "u2"), "@nosuch hello")),
        Route::Prompt { agent: None, prompt: "@nosuch hello".into() }
    );
}

#[test]
fn addressing_the_same_agent_changes_nothing() {
    let mut engine = engine();
    let mut reg = registry();
    let key = SessionKey::new("mock", "u1");
    engine.spawned(&key, 5, "echo2".into(), "s1".into(), &mut reg);
    assert_eq!(engine.address_agent(&key, "echo2", &mut reg), Ok(None));
    assert_eq!(engine.session_handle(&key), Some(5));
    assert!(engine.address_agent(&key, "nobody", &mut reg).is_err());
}

#[test]
fn resumed_session_is_claimed_next() {
    let mut engine = engine();
    let mut reg = registry();
    let key = SessionKey::new("mock", "u1");
    engine.spawned(&key, 5, "echo2".into(), "s2".into(), &mut reg);
    let (handle, reply, out) = engine.resume_session(&key, "s1", &mut reg);
    assert_eq!((handle, out), (Some(5), DONE));
    assert_eq!(reply, "will resume session `s1` on next message.");
    assert_eq!(
        engine.claim_session(&key, &reg),
        Claim::Start { agent: "echo2".into(), resume: Some("s1".into()) }
    );
    let listing = sessions_reply(&reg.get_session(&key));
    assert_eq!(listing, "▶ s1 (active, agent=echo2)\n  s2 (agent=echo2)");
    assert_eq!(sessions_reply(&None), "no sessions found.");
}

#[test]
fn dead_session_is_retried_once() {
    let mut engine = engine();
    let mut reg = registry();
    let key = SessionKey::new("mock", "u1");
    engine.spawned(&key, 5, "echo".into(), "s1".into(), &mut reg);
    assert_eq!(
        engine.send_failed(&key, &mut reg, false),
        Ok(Claim::Start { agent: "echo".into(), resume: None })
    );
    assert_eq!(
        engine.send_failed(&key, &mut reg, true),
        Err("session actor dropped on retry".to_string())
    );
}

#[test]
fn shutdown_hands_out_every_session() {
    let mut engine = engine();
    let mut reg = registry();
    engine.spawned(&SessionKey::new("mock", "a"), 1, "echo".into(), "s1".into(), &mut reg);
    engine.spawned(&SessionKey::new("mock", "b"), 2, "echo".into(), "s2".into(), &mut reg);
    let mut all = engine.shutdown();
    all.sort();
    assert_eq!(all, vec![("mock:a".to_string(), 1), ("mock:b".to_string(), 2)]);
    assert!(engine.shutdown().is_empty());
}

#[test]
fn builders_need_an_agent_and_a_platform() {
    assert_eq!(Engine::builder().build(0).err().as_deref(), Some("default_agent required"));
    assert_eq!(
        Engine::builder().default_agent("x").platform("p").build(0).err().as_deref(),
        Some("default_agent `x` not registered")
    );
    assert_eq!(
        Engine::builder().add_agent("x").default_agent("x").build(0).err().as_deref(),
        Some("platform required")
    );
}

#[test]
fn user_commands_expand_but_never_replace_builtins() {
    let spec = |name: &str| CommandSpec {
        name: name.into(),
        source: Source::Config,
        template: "review {{1}} then {{2*}}".into(),
        description: String::new(),
    };
    let engine = Engine::builder()
        .add_agent("echo")
        .default_agent("echo")
        .platform("mock")
        .add_command(spec("review"))
        .add_command(spec("reset"))
        .build(0)
        .unwrap();
    let key = SessionKey::new("mock", "u");
    assert_eq!(
        engine.route(&make_msg(key.clone(), "/review a b c")),
        Route::Prompt { agent: None, prompt: "review a then b c".into() }
    );
    assert!(matches!(
        engine.route(&make_msg(key, "/reset")),
        Route::Builtin { name, .. } if name == "reset"
    ));
}

#[test]
fn schedule_creates_and_lists() {
    let mut reg = registry();
    let key = SessionKey::new("mock", "u-sched");
    let ctx = ReplyCtx::default();
    let said = add_schedule(reg.db_mut(), &key, &ctx, "in 1h", "test prompt".into()).ok().unwrap();
    assert!(said.contains("scheduled (id="));
    let list = schedules_reply(&reg.db().list_schedules(&key));
    assert!(list.contains("Scheduled actions"));
    assert!(list.contains("test prompt"));
}

#[test]
fn schedule_delete_removes_entry() {
    let mut reg = registry();
    let key = SessionKey::new("mock", "u-del");
    let entry = new_schedule(&key, &ReplyCtx::default(), "every 1h", "ping".into()).unwrap();
    assert!(reg.db_mut().add_schedule(&entry).is_ok());
    let entries = reg.db().list_schedules(&key);
    assert_eq!(entries.len(), 1);
    let short: String = entries[0].id.chars().take(8).collect();
    assert_eq!(schedule_by_prefix(&entries, &short), Some(0));
    assert_eq!(
        delete_schedule(reg.db_mut(), &key, &short),
        Ok(format!("deleted schedule `{short}`"))
    );
    assert!(reg.db().list_schedules(&key).is_empty());
    assert_eq!(
        delete_schedule(reg.db_mut(), &key, "zzz"),
        Ok("no schedule matches `zzz`".to_string())
    );
}

#[test]
fn schedule_list_empty() {
    assert!(schedules_reply(&vec![]).contains("no scheduled"));
}

#[test]
fn schedule_invalid_format_reports_error() {
    let key = SessionKey::new("mock", "u-bad");
    let mut reg = registry();
    let said = add_schedule(reg.db_mut(), &key, &ReplyCtx::default(), "tomorrow", "test".into());
    assert!(said.ok().unwrap().contains("invalid schedule"));
    assert!(reg.db().list_schedules(&key).is_empty());
}

#[test]
fn listings_read_as_expected() {
    let agents = vec!["zeta".to_string(), "alpha".to_string()];
    assert_eq!(agents_reply(&agents, "zeta"), "agents available: alpha, zeta\ndefault: zeta");
    assert_eq!(mcp_missing("/c/.mcp.json"), "no .mcp.json found.\nconfig path: /c/.mcp.json");
    assert_eq!(mcp_reply("not json", "/c/.mcp.json"), None);
    let mcp = mcp_reply(r#"{"mcpServers":{"fetch":{}}}"#, "/c/.mcp.json").unwrap();
    assert!(mcp.contains("fetch") && mcp.ends_with("config: /c/.mcp.json"));
    let skills = skills_reply(
        Some(vec!["b".into(), "a".into()]),
        "/c/skills",
        Some(r#"{"allow":[1,2],"env":{"k":1},"model":"x"}"#.into()),
    );
    assert_eq!(
        skills,
        "Skills (2):\n  /a\n  /b\ndir: /c/skills\n\nSettings:\n  allow: [2 items]\n  env: {1 keys}\n  model: \"x\""
    );
    assert_eq!(
        skills_reply(None, "/c/skills", None),
        "Skills: (none)\ndir: /c/skills (not found)"
    );
}

#[test]
fn metrics_returns_valid_json() {
    let engine = engine();
    let stats = engine.stats(BOOT + 5_500);
    assert_eq!(
        metrics(&stats).to_text(),
        r#"{"active_sessions":0,"agents":["echo","echo2"],"default_agent":"echo","max_sessions":96,"platforms":["mock"],"uptime_s":5}"#
    );
    assert_eq!(healthz(), "ok");
}

#[test]
fn sessions_returns_array() {
    let mut engine = engine();
    assert_eq!(sessions(&engine.stats(BOOT)).to_text(), "[]");
    let mut reg = registry();
    engine.spawned(&SessionKey::new("mock", "a"), 1, "echo".into(), "s1".into(), &mut reg);
    assert_eq!(sessions(&engine.stats(BOOT)).to_text(), r#"["mock:a"]"#);
}

// ── Commands ────────────────────────────────────────────────────────────

/// What a command is answered with.
fn answer(engine: &Engine, text: &str) -> String {
    match engine.route(&make_msg(SessionKey::new("mock", "uh"), text)) {
        Route::Builtin { name, args } => match plan_builtin(&name, &args) {
            Plan::Reply(reply) => reply,
            Plan::ShowHelp => help_reply(engine.commands()),
            other => panic!("{other:?}"),
        },
        other => panic!("{other:?}"),
    }
}

#[test]
fn help_lists_builtins() {
    let body = answer(&engine(), "/help");
    assert!(body.contains("/new"));
    assert!(body.contains("/resume"));
    assert!(body.contains("/mcp"));
    assert!(body.contains("/skills"));
    assert!(body.contains("  /help  (builtin)  — list available commands"));
}

#[test]
fn help_lists_schedule_commands() {
    let body = answer(&engine(), "/help");
    assert!(body.contains("/schedule-list"));
    assert!(body.contains("/schedule-delete"));
}

#[test]
fn schedule_shows_usage_without_args() {
    assert!(answer(&engine(), "/schedule").contains("usage:"));
}

#[test]
fn deletions_are_reported() {
    assert_eq!(deleted_reply("abcd", true), "deleted schedule `abcd`");
    assert_eq!(deleted_reply("abcd", false), "no schedule matches `abcd`");
    assert_eq!(no_client_dir(), "per-client isolation not configured.");
}

// ── Schedules ───────────────────────────────────────────────────────────

fn make_entry(id: &str, key: &SessionKey, prompt: &str) -> ScheduleEntry {
    ScheduleEntry {
        id: id.into(),
        key: key.clone(),
        prompt: prompt.into(),
        reply_ctx: ReplyCtx::default(),
        schedule: ScheduleKind::Recurring {
            interval_ms: 3_600_000,
            next_fire_ms: now_ms() + 3_600_000,
        },
        created_at_ms: now_ms(),
        last_fired_ms: None,
    }
}

#[test]
fn scheduler_add_and_list() {
    let mut reg = registry();
    let db = reg.db_mut();
    let key = SessionKey::new("t", "u1");
    assert!(db.add_schedule(&make_entry("s1", &key, "hello")).is_ok());
    assert!(db.add_schedule(&make_entry("s2", &key, "world")).is_ok());
    assert_eq!(db.list_schedules(&key).len(), 2);
    assert_eq!(db.list_all_schedules().len(), 2);
}

#[test]
fn scheduler_list_filters_by_key() {
    let mut reg = registry();
    let db = reg.db_mut();
    let k1 = SessionKey::new("t", "u1");
    let k2 = SessionKey::new("t", "u2");
    assert!(db.add_schedule(&make_entry("s1", &k1, "one")).is_ok());
    assert!(db.add_schedule(&make_entry("s2", &k2, "two")).is_ok());
    assert_eq!(db.list_schedules(&k1).len(), 1);
    assert_eq!(db.list_schedules(&k2).len(), 1);
    assert_eq!(db.list_all_schedules().len(), 2);
}

#[test]
fn scheduler_remove() {
    let mut reg = registry();
    let db = reg.db_mut();
    let key = SessionKey::new("t", "u1");
    assert!(db.add_schedule(&make_entry("s1", &key, "hello")).is_ok());
    assert!(db.add_schedule(&make_entry("s2", &key, "world")).is_ok());
    assert_eq!(db.remove_schedule(&key, "s1"), Ok(true));
    assert_eq!(db.list_schedules(&key).len(), 1);
    assert_eq!(db.list_schedules(&key)[0].id, "s2");
    assert_eq!(db.remove_schedule(&key, "nonexistent"), Ok(false));
}

// ── Sessions over time ──────────────────────────────────────────────────

fn prompt(text: &str) -> Input {
    Input::Command(Cmd::Send {
        prompt: text.into(),
        attachments: vec![],
        reply_ctx: ReplyCtx::default(),
    })
}

#[test]
fn idle_timeout_does_not_kill_working_session() {
    let mut actor = Actor::new(false, ReplyCtx::default(), 1_000, 0);
    actor.step(prompt("slow request"), 0);
    actor.step(Input::PromptSent, 1);
    assert!(!actor.step(Input::Timer, 1_200).contains(&Action::Stop));
    let done = actor.step(
        Input::AgentEvent(Event::AssistantText {
            text: "echo: slow request".into(),
            partial: false,
        }),
        1_500,
    );
    assert!(done.contains(&Action::Reply("echo: slow request".into())));
}

#[test]
fn idle_timeout_kills_truly_idle_session() {
    let mut engine = engine();
    let mut reg = registry();
    let key = SessionKey::new("mock", "u-idle");
    let mut actor = Actor::new(false, ReplyCtx::default(), 200, 0);
    assert_eq!(echo_turn(&mut actor, "first"), vec!["echo: first".to_string()]);
    assert!(actor.step(Input::Timer, 400).contains(&Action::Stop));
    engine.spawned(&key, 1, "echo".into(), "echo-1".into(), &mut reg);
    assert_eq!(
        engine.send_failed(&key, &mut reg, false),
        Ok(Claim::Start { agent: "echo".into(), resume: None })
    );
    let mut fresh = Actor::new(false, ReplyCtx::default(), 200, 0);
    assert_eq!(echo_turn(&mut fresh, "second"), vec!["echo: second".to_string()]);
}

#[test]
fn batch_mode_sends_single_reply() {
    let mut actor = Actor::new(true, ReplyCtx::default(), 1_000, 0);
    let mut actions = actor.step(prompt("hi"), 0);
    actions.extend(actor.step(Input::PromptSent, 1));
    for (text, partial) in [("ec", true), ("ho", true), (": hi", true), ("echo: hi", false)] {
        let e = Event::AssistantText { text: text.into(), partial };
        actions.extend(actor.step(Input::AgentEvent(e), 2));
    }
    actions.extend(actor.step(Input::AgentEvent(Event::Done { session_id: "s".into() }), 3));
    let replies: Vec<_> = actions.iter().filter(|a| matches!(a, Action::Reply(_))).collect();
    assert_eq!(replies, vec![&Action::Reply("echo: hi".into())]);
}

#[test]
fn foreign_schedules_are_not_deleted() {
    let mut reg = registry();
    let mine = SessionKey::new("stdio", "me");
    let yours = SessionKey::new("stdio", "you");
    assert!(reg.db_mut().add_schedule(&make_entry("s1", &mine, "hello")).is_ok());
    assert_eq!(
        delete_schedule(reg.db_mut(), &yours, "s1"),
        Ok("no schedule matches `s1`".to_string())
    );
    assert_eq!(reg.db().list_schedules(&mine).len(), 1);
}

#[test]
fn ticks_fire_and_settle_what_is_stored() {
    let mut db = StateDb::in_memory().ok().unwrap();
    let key = SessionKey::new("stdio", "me");
    let mut once = make_entry("once", &key, "one");
    once.schedule = ScheduleKind::Once { fire_at_ms: 900 };
    let mut often = make_entry("often", &key, "many");
    often.schedule = ScheduleKind::Recurring { interval_ms: 60, next_fire_ms: 1_000 };
    let mut later = make_entry("later", &key, "not yet");
    later.schedule = ScheduleKind::Once { fire_at_ms: 1_001 };
    for e in [&once, &often, &later] {
        assert!(db.add_schedule(e).is_ok());
    }
    let ticked = tick(&mut db, 1_000);
    assert!(ticked.complete && ticked.errors.is_empty());
    let mut texts: Vec<&str> = ticked.fire.iter().map(|m| m.text.as_str()).collect();
    texts.sort();
    assert_eq!(texts, vec!["many", "one"]);
    let mut left = db.list_all_schedules();
    left.sort_by(|a, b| a.id.cmp(&b.id));
    assert_eq!(left.len(), 2);
    assert_eq!(left[0].id, "later");
    assert_eq!(left[1].schedule, ScheduleKind::Recurring { interval_ms: 60, next_fire_ms: 1_060 });
    assert_eq!(left[1].last_fired_ms, Some(1_000));
    assert!(tick(&mut db, 1_000).fire.is_empty());
}

#[test]
fn plain_text_is_forwarded() {
    let engine = engine();
    match engine.route(&make_msg(SessionKey::new("mock", "u"), "  fix \"it\" & 100%\n")) {
        Route::Prompt { agent, prompt } => {
            assert_eq!(agent, None);
            assert_eq!(prompt, "  fix \"it\" & 100%\n");
        }
        _ => panic!("not a prompt"),
    }
}

#[test]
fn texts_with_a_code_block_keep_their_indentation() {
    let engine = engine();
    let text = "    let x = 1;\n    @nobody stays\n";
    assert_eq!(
        engine.route(&make_msg(SessionKey::new("mock", "u"), text)),
        Route::Prompt { agent: None, prompt: text.into() }
    );
}

#[test]
fn commands_are_recognised_behind_blanks() {
    let engine = engine();
    let key = SessionKey::new("mock", "u");
    assert!(matches!(
        engine.route(&make_msg(key.clone(), "  /agent echo2 ")),
        Route::Builtin { name, .. } if name == "agent"
    ));
    assert_eq!(
        engine.route(&make_msg(key, " @echo2 hi ")),
        Route::Prompt { agent: Some("echo2".into()), prompt: "hi".into() }
    );
}

/// What a turn of a batching session posts for these texts of the agent.
fn batched(texts: &[(&str, bool)]) -> Vec<String> {
    let mut actor = Actor::new(true, ReplyCtx::default(), 1_000, 0);
    let mut actions = actor.step(prompt("hi"), 0);
    actions.extend(actor.step(Input::PromptSent, 1));
    for (text, partial) in texts {
        let e = Event::AssistantText { text: text.to_string(), partial: *partial };
        actions.extend(actor.step(Input::AgentEvent(e), 2));
    }
    actions.extend(actor.step(Input::AgentEvent(Event::Done { session_id: "s".into() }), 3));
    actions
        .into_iter()
        .filter_map(|a| match a {
            Action::Reply(t) => Some(t),
            _ => None,
        })
        .collect()
}

#[test]
fn batched_turns_are_one_message() {
    assert_eq!(batched(&[("Let me see", true), ("The answer is 4", false)]), ["The answer is 4"]);
    assert_eq!(batched(&[("4", true), ("2", true), ("42!", false)]), ["42!"]);
    assert_eq!(batched(&[("only parts", true)]), ["only parts"]);
    assert_eq!(batched(&[("kept", true), ("  ", false)]), ["kept"]);
    assert!(batched(&[]).is_empty());
}

fn remembered(agent: &str, active: Option<&str>) -> Option<RegistryEntry> {
    Some(RegistryEntry {
        agent: agent.into(),
        active_session_id: active.map(|a| a.to_string()),
        past_agent_session_ids: vec![],
    })
}

#[test]
fn claims_follow_what_was_read() {
    let mut engine = engine();
    let key = SessionKey::new("mock", "u");
    assert_eq!(engine.agent_read(&None), "echo");
    assert_eq!(engine.agent_read(&remembered("echo2", None)), "echo2");
    assert_eq!(
        engine.claim_read(&key, None),
        Claim::Start { agent: "echo".into(), resume: None }
    );
    assert_eq!(
        engine.claim_read(&key, remembered("echo2", Some("s-9"))),
        Claim::Start { agent: "echo2".into(), resume: Some("s-9".into()) }
    );
    assert!(matches!(
        engine.claim_read(&key, remembered("gone", None)),
        Claim::UnknownAgent { .. }
    ));
    engine.session_started(&key, 3);
    assert_eq!(engine.claim_read(&key, remembered("gone", None)), Claim::Existing(3));
}

#[test]
fn switches_follow_what_was_read() {
    let mut engine = engine();
    let mut reg = registry();
    let key = SessionKey::new("mock", "u");
    engine.session_started(&key, 5);
    let read = remembered("echo", Some("s-1"));
    assert_eq!(engine.address_read(&key, "echo", &mut reg, read), Ok(None));
    let read = remembered("echo", Some("s-1"));
    assert_eq!(engine.switch_read(&key, "echo2", &mut reg, read), Ok((Some(5), true)));
    let e = reg.get_session(&key).unwrap();
    assert_eq!(e.agent, "echo2");
    assert_eq!(e.active_session_id, None);
    assert_eq!(e.past_agent_session_ids, vec![("echo".to_string(), "s-1".to_string())]);
    assert_eq!(
        engine.address_read(&key, "echo", &mut reg, Some(e)),
        Ok(Some((None, true)))
    );
    assert_eq!(engine.current_agent(&key, &reg), "echo");
    let read = reg.get_session(&key);
    assert!(engine.switch_read(&key, "nobody", &mut reg, read).is_err());
    assert_eq!(engine.current_agent(&key, &reg), "echo");
}

#[test]
fn resets_and_resumes_follow_what_was_read() {
    let mut engine = engine();
    let mut reg = registry();
    let key = SessionKey::new("mock", "u");
    let (handle, answer, stored) =
        engine.resume_read(&key, "old-1", &mut reg, remembered("echo2", None));
    assert_eq!(handle, None);
    assert!(stored);
    assert_eq!(answer, "will resume session `old-1` on next message.");
    assert_eq!(
        engine.claim_session(&key, &reg),
        Claim::Start { agent: "echo2".into(), resume: Some("old-1".into()) }
    );
    engine.session_started(&key, 8);
    let read = reg.get_session(&key);
    assert_eq!(engine.reset_read(&key, &mut reg, read), (Some(8), true));
    let e = reg.get_session(&key).unwrap();
    assert_eq!(e.active_session_id, None);
    assert_eq!(e.past_agent_session_ids, vec![("echo2".to_string(), "old-1".to_string())]);
    assert_eq!(engine.reset_read(&SessionKey::new("mock", "v"), &mut reg, None), (None, false));
}

#[test]
fn offered_commands_are_the_builtins_and_the_free_ones() {
    let spec = |name: &str, template: &str| CommandSpec {
        name: name.into(),
        source: Source::Config,
        template: template.into(),
        description: "d".into(),
    };
    let engine = Engine::builder()
        .add_agent("echo")
        .default_agent("echo")
        .platform("mock")
        .add_command(spec("review", "look at {{1}}"))
        .add_command(spec("help", "shadowed"))
        .add_command(spec("review", "a second one"))
        .build(0)
        .unwrap();
    let commands = engine.commands();
    let review = commands.get("review").unwrap();
    assert_eq!(review.description, "d");
    assert_eq!(commands.get("help").unwrap().template, "");
    assert!(commands.get("nothing").is_none());
    assert_eq!(
        engine.route(&make_msg(SessionKey::new("mock", "u"), "/review x")),
        Route::Prompt { agent: None, prompt: review.template.replace("{{1}}", "x") }
    );
}

#[test]
fn stats_name_each_session_once() {
    let mut engine = engine();
    let a = SessionKey::new("mock", "a");
    let b = SessionKey::new("mock", "b");
    engine.session_started(&a, 1);
    engine.session_started(&b, 2);
    engine.session_started(&a, 3);
    let mut keys = engine.stats(BOOT).sessions;
    keys.sort();
    assert_eq!(keys, ["mock:a", "mock:b"]);
}

#[test]
fn help_is_the_same_in_every_spelling() {
    let engine = engine();
    let key = SessionKey::new("mock", "u");
    let help = Route::Builtin { name: "help".into(), args: vec![] };
    for text in ["/help", "/HELP", "/hElP"] {
        assert_eq!(engine.route(&make_msg(key.clone(), text)), help);
    }
    assert_eq!(plan_builtin("help", &vec![]), Plan::ShowHelp);
    let body = help_reply(engine.commands());
    assert!(body.starts_with("Available commands:"));
    let names: Vec<&str> =
        body.lines().skip(1).map(|l| l.trim().split_whitespace().next().unwrap()).collect();
    let mut sorted = names.clone();
    sorted.sort();
    assert_eq!(names, sorted);
    assert_eq!(names.len(), 20);
}

#[test]
fn lists_are_in_dictionary_order() {
    let agents: Vec<String> = vec!["zeta".into(), "alpha".into(), "beta".into()];
    let other: Vec<String> = vec!["beta".into(), "zeta".into(), "alpha".into()];
    assert_eq!(agents_reply(&agents, "zeta"), "agents available: alpha, beta, zeta\ndefault: zeta");
    assert_eq!(agents_reply(&agents, "zeta"), agents_reply(&other, "zeta"));
}
