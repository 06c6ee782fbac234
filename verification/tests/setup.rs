//! The configuration, the service, published files and stored values.

use ai_agent_bridge::acp::AcpConfig;
use ai_agent_bridge::cli_agent::CliAgentConfig;
use ai_agent_bridge::codec::{
    ctx_of_json, ctx_to_json, event_of_json, event_to_json, kind_of_json, kind_to_json,
    permission_of_json, permission_to_json,
};
use ai_agent_bridge::config::{
    default_state_dir, expand_tilde, missing_env, required_base_url, session_line, AgentPlan,
    AgentSection, AppConfig, BridgeSection, LineSection, MediaPlan, MediaSection, PlatformPlan,
    PlatformsSection, ProviderSection,
};
use ai_agent_bridge::claude::ClaudeCodeConfig;
use ai_agent_bridge::http_agent::HttpAgentConfig;
use ai_agent_bridge::ids::new_id;
use ai_agent_bridge::json::{Json, Members};
use ai_agent_bridge::media::{
    blob_location, blob_name, choose_location, is_base_url, public_url, room, BlobLocation,
    DisabledPublisher, LocalHttpPublisher,
};
use ai_agent_bridge::registry::RegistryEntry;
use ai_agent_bridge::schedule::ScheduleKind;
use ai_agent_bridge::service::{
    platform_service, shell_escape, ServiceManager, ServiceStatus, Step, SystemdUser,
};
use ai_agent_bridge::types::{
    Attachment, AttachmentKind, Event, PermissionRequest, ReplyCtx, SessionKey,
};

fn home() -> Option<String> {
    Some("/home/u".to_string())
}

fn app() -> AppConfig {
    AppConfig {
        main_agent: "main".into(),
        bridge: BridgeSection::defaults(&home(), "main"),
        agents: vec![],
        platforms: PlatformsSection { line: None, slack: None },
        providers: vec![],
    }
}

fn words(v: &[&str]) -> Vec<String> {
    v.iter().map(|s| s.to_string()).collect()
}

// ── Configuration ───────────────────────────────────────────────────────

#[test]
fn defaults_stand_without_a_file() {
    let b = BridgeSection::defaults(&home(), "main");
    assert_eq!(b.default_agent, "main");
    assert_eq!(b.default_platform, "stdio");
    assert_eq!(b.state_dir, "/home/u/.ai-agent-bridge");
    assert_eq!(b.max_sessions, 64);
    assert_eq!(default_state_dir(&None), ".ai-agent-bridge");
}

#[test]
fn tildes_are_the_home() {
    assert_eq!(expand_tilde("~/x", &home()), "/home/u/x");
    assert_eq!(expand_tilde("~x", &home()), "~x");
    assert_eq!(expand_tilde("~/x", &None), "~/x");
    assert_eq!(expand_tilde("/a/~/x", &home()), "/a/~/x");
}

#[test]
fn agents_are_planned_by_name() {
    let mut c = app();
    assert_eq!(
        c.build_agent("main", &home(), ""),
        Ok(AgentPlan::Claude(ClaudeCodeConfig::new("main")))
    );
    assert_eq!(
        c.build_agent("acp", &home(), ""),
        Err("agents.acp.binary required for --agent acp".to_string())
    );
    assert_eq!(
        c.build_agent("shell", &home(), ""),
        Err("agents.shell.binary required for --agent shell".to_string())
    );
    assert_eq!(
        c.build_agent("nosuch", &home(), ""),
        Err("agent `nosuch` not enabled in this build".to_string())
    );
    assert_eq!(
        c.build_agent("copilot", &home(), ""),
        Ok(AgentPlan::Cli {
            name: "copilot".into(),
            cfg: CliAgentConfig {
                binary: "gh".into(),
                args: words(&["copilot", "explain"]),
                supports_resume: false,
            },
        })
    );
    c.agents.push((
        "acp".into(),
        AgentSection {
            binary: Some("gemini".into()),
            extra_args: Some(words(&["--acp"])),
            ..AgentSection::default()
        },
    ));
    assert_eq!(
        c.build_agent("acp", &home(), ""),
        Ok(AgentPlan::Acp(AcpConfig {
            binary: "gemini".into(),
            args: words(&["--acp"]),
            cwd: None,
        }))
    );
}

#[test]
fn providers_set_the_http_agent() {
    let mut c = app();
    assert_eq!(
        c.build_agent("http", &home(), "KEY"),
        Ok(AgentPlan::Http(HttpAgentConfig {
            base_url: "https://api.openai.com/v1".into(),
            model: "gpt-4o-mini".into(),
            api_key: "KEY".into(),
            agent_name: "openai".into(),
            stream: true,
        }))
    );
    c.providers.push((
        "openai".into(),
        ProviderSection { base_url: Some("http://localhost/v1".into()), model: Some("m".into()) },
    ));
    match c.build_agent("http", &home(), "") {
        Ok(AgentPlan::Http(h)) => {
            assert_eq!(h.base_url, "http://localhost/v1");
            assert_eq!(h.model, "m");
        }
        other => panic!("{other:?}"),
    }
}

#[test]
fn platforms_are_planned_by_name() {
    let mut c = app();
    assert_eq!(c.build_platform("stdio"), Ok(PlatformPlan::Stdio));
    assert_eq!(
        c.build_platform("slack"),
        Ok(PlatformPlan::Slack {
            app_env: "SLACK_APP_TOKEN".into(),
            bot_env: "SLACK_BOT_TOKEN".into(),
        })
    );
    assert_eq!(
        c.build_platform("irc"),
        Err("platform `irc` not enabled in this build".to_string())
    );
    let media = |kind: &str, url: Option<&str>| MediaSection {
        kind: Some(kind.into()),
        bind: None,
        public_base_url: url.map(|u| u.to_string()),
        connection_string_env: None,
        container: None,
        sas_expiry_secs: None,
    };
    let section = |media: MediaSection| LineSection {
        channel_secret_env: None,
        channel_token_env: None,
        webhook_bind: None,
        allowlist: Some(words(&["U1"])),
        media: Some(media),
    };
    assert_eq!(
        c.build_platform("telegram"),
        Ok(PlatformPlan::Telegram { bot_env: "TELEGRAM_BOT_TOKEN".into() })
    );
    assert_eq!(
        c.build_platform("discord"),
        Ok(PlatformPlan::Discord { bot_env: "DISCORD_BOT_TOKEN".into() })
    );
    c.platforms.line = Some(section(media("local-http", None)));
    match c.build_platform("line") {
        Ok(PlatformPlan::Line {
            secret_env,
            media: MediaPlan::LocalHttp { public_base_url, .. },
            ..
        }) => {
            assert_eq!(secret_env, "LINE_CHANNEL_SECRET");
            assert_eq!(
                required_base_url(&public_base_url),
                Err("media.public_base_url required".to_string())
            );
        }
        other => panic!("{other:?}"),
    }
    assert_eq!(required_base_url(&Some("https://m".into())), Ok("https://m".to_string()));
    c.platforms.line = Some(section(media("local-http", Some("https://m"))));
    assert_eq!(
        c.build_platform("line"),
        Ok(PlatformPlan::Line {
            secret_env: "LINE_CHANNEL_SECRET".into(),
            token_env: "LINE_CHANNEL_TOKEN".into(),
            bind: "0.0.0.0:8080".into(),
            allowlist: words(&["U1"]),
            media: MediaPlan::LocalHttp {
                bind: "0.0.0.0:8081".into(),
                public_base_url: Some("https://m".into()),
            },
        })
    );
    c.platforms.line = Some(section(media("azure-blob", None)));
    match c.build_platform("line") {
        Ok(PlatformPlan::Line { media, .. }) => assert_eq!(
            media,
            MediaPlan::AzureBlob {
                connection_env: "AZURE_STORAGE_CONNECTION_STRING".into(),
                container: "aab-media".into(),
                expiry_secs: 3600,
            }
        ),
        other => panic!("{other:?}"),
    }
}

#[test]
fn state_lies_in_its_directory() {
    let mut c = app();
    assert_eq!(c.state_db_path(&home()), "/home/u/.ai-agent-bridge/db_data/state.db");
    assert_eq!(c.state_path("logs", &home()), "/home/u/.ai-agent-bridge/logs");
    c.bridge.state_dir = "~/state".into();
    assert_eq!(c.state_path("daemon.lock", &home()), "/home/u/state/daemon.lock");
    c.agents.push((
        "main".into(),
        AgentSection {
            client_config_base_dir: Some("~/clients".into()),
            ..AgentSection::default()
        },
    ));
    assert_eq!(c.state_db_path(&home()), "/home/u/clients/db_data/state.db");
}

#[test]
fn reports_read_as_expected() {
    assert_eq!(missing_env("LINE_CHANNEL_TOKEN"), "env var `LINE_CHANNEL_TOKEN` not set");
    let e = RegistryEntry::default().record("main".into(), "s1".into());
    assert_eq!(
        session_line(&SessionKey::new("line", "U1"), &e),
        "line:U1  agent=main  active=s1  past=0"
    );
    assert_eq!(
        session_line(&SessionKey::new("line", "U1"), &e.archive()),
        "line:U1  agent=main  active=-  past=1"
    );
}

// ── Service ─────────────────────────────────────────────────────────────

#[test]
fn words_are_escaped_for_the_shell() {
    assert_eq!(shell_escape("/usr/bin/aab"), "/usr/bin/aab");
    assert_eq!(shell_escape("a b"), "'a b'");
    assert_eq!(shell_escape("it's"), "'it'\\''s'");
    assert_eq!(shell_escape(""), "");
}

#[test]
fn service_is_installed_as_a_unit() {
    let s = SystemdUser::new("aab", &None, &home());
    assert_eq!(s.unit_path, "/home/u/.config/systemd/user/aab.service");
    let steps = s.install("/opt/my aab", &words(&["start", "--agent", "main"]));
    assert_eq!(
        steps[0],
        Step::Write {
            path: "/home/u/.config/systemd/user/aab.service".into(),
            content: "[Unit]\nDescription=ai-agent-bridge (aab)\nAfter=network.target\n\n[Service]\nType=simple\nExecStart='/opt/my aab' start --agent main\nRestart=on-failure\nRestartSec=5s\n\n[Install]\nWantedBy=default.target\n".into(),
        }
    );
    assert_eq!(steps[1], Step::Run { args: words(&["--user", "daemon-reload"]) });
    assert_eq!(s.start(), vec![Step::Run { args: words(&["--user", "start", "aab.service"]) }]);
    assert_eq!(s.stop(), vec![Step::Run { args: words(&["--user", "stop", "aab.service"]) }]);
    assert_eq!(s.uninstall().len(), 4);
    assert_eq!(s.uninstall()[2], Step::Remove { path: s.unit_path.clone() });
}

#[test]
fn service_status_follows_the_unit() {
    let s = platform_service("aab", &Some("/cfg".into()), &None);
    assert_eq!(s.unit_path, "/cfg/systemd/user/aab.service");
    assert_eq!(s.status(false, "active"), ServiceStatus::NotInstalled);
    assert_eq!(s.status(true, "active\n"), ServiceStatus::Running);
    assert_eq!(s.status(true, "inactive\n"), ServiceStatus::Stopped);
    assert_eq!(ServiceStatus::Stopped.name(), "Stopped");
}

// ── Published files ─────────────────────────────────────────────────────

#[test]
fn published_files_can_be_fetched() {
    let mut p = LocalHttpPublisher::new("https://m.example/base/");
    let (id, url) = p.publish("/tmp/a.png", "image/png");
    let url = url.unwrap();
    assert_eq!(url, format!("https://m.example/base/media/{id}"));
    let e = p.lookup(&id).unwrap();
    assert_eq!(e.path, "/tmp/a.png");
    assert_eq!(e.mime, "image/png");
    assert_eq!(p.lookup("other"), None);
    let (second, _) = p.publish("/tmp/b.png", "image/png");
    assert_ne!(id, second);
    assert_eq!(p.lookup(&id).unwrap().path, "/tmp/a.png");
}

#[test]
fn addresses_are_built_from_the_base() {
    assert_eq!(
        public_url("https://m.example", "id1").as_deref(),
        Some("https://m.example/media/id1")
    );
    assert_eq!(
        public_url("https://m.example/a?q=1", "id 2").as_deref(),
        Some("https://m.example/a/media/id%202?q=1")
    );
    assert_eq!(public_url("not a url", "id"), None);
    assert!(is_base_url("https://m.example"));
    assert!(!is_base_url("not a url"));
    assert!(room("https://m.example/", "/media/id1"));
    let long = "a".repeat(200_000);
    assert_eq!(
        public_url(&format!("https://m.example/{long}/"), "id3"),
        Some(format!("https://m.example/{long}/media/id3"))
    );
    assert_eq!(
        DisabledPublisher.publish("/tmp/x", "m/m"),
        Err("media publisher is not configured".to_string())
    );
}

#[test]
fn blobs_go_where_the_connection_says() {
    assert_eq!(
        blob_location("AccountName=acct;AccountKey=a2V5;EndpointSuffix=core.windows.net"),
        Ok(BlobLocation::Public { account: "acct".into() })
    );
    assert_eq!(
        blob_location("AccountName=acct;AccountKey=a2V5;BlobEndpoint=http://127.0.0.1:10000/acct"),
        Ok(BlobLocation::Custom {
            account: "acct".into(),
            uri: "http://127.0.0.1:10000/acct".into(),
        })
    );
    assert!(blob_location("nonsense").unwrap_err().starts_with("invalid connection string: "));
    assert!(blob_location("AccountName=acct")
        .unwrap_err()
        .starts_with("invalid storage credentials: "));
    assert_eq!(
        choose_location(Ok((None, None)), Ok(())),
        Err("connection string missing AccountName".to_string())
    );
    assert_eq!(blob_name("id1", "/tmp/a b.png"), "media/id1/a b.png");
}

// ── Stored values ───────────────────────────────────────────────────────

#[test]
fn ids_are_distinct_uuids() {
    let a = new_id();
    assert!(uuid::Uuid::parse_str(&a).is_ok());
    assert_eq!(a.len(), 36);
}

#[test]
fn contexts_and_schedules_read_back() {
    let ctx = ReplyCtx {
        channel: Some("C".into()),
        thread: None,
        user: Some("U".into()),
        extra: Members::new().with_str("k", "v").object(),
    };
    assert_eq!(ctx_of_json(&ctx_to_json(&ctx)), Some(ctx));
    for k in [
        ScheduleKind::Once { fire_at_ms: 5 },
        ScheduleKind::Recurring { interval_ms: 60_000, next_fire_ms: 7 },
    ] {
        assert_eq!(kind_of_json(&kind_to_json(&k)), Some(k));
    }
    assert_eq!(kind_of_json(&Json::Null), None);
}

#[test]
fn events_read_back() {
    let p = PermissionRequest {
        id: "r".into(),
        tool_name: "Bash".into(),
        description: "run".into(),
        input: Json::Null,
    };
    assert_eq!(permission_of_json(&permission_to_json(&p)), Some(p));
    let events = vec![
        Event::AssistantText { text: "x".into(), partial: true },
        Event::AssistantAttachment(Attachment {
            kind: AttachmentKind::Image,
            path: "/tmp/a.png".into(),
            mime: "image/png".into(),
            bytes: Some(3),
            name: None,
        }),
        Event::ToolStart { name: "Bash".into(), id: "t".into() },
        Event::ToolEnd { id: "t".into(), ok: false },
        Event::Done { session_id: "s".into() },
    ];
    for e in events {
        let j = event_to_json(&e).unwrap();
        assert_eq!(event_of_json(&j), Some(e));
    }
}
