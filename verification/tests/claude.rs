//! The agent in stream-json mode: working directories, overrides, the command line, frames
//! and stream events.

use ai_agent_bridge::claude::{
    choose_session_id, make_answer_frame, make_interrupt_frame, make_user_frame,
    pick_session_id, serialize_attachment, session_key_to_dirname, spawn_args, Amount, ClaudeCodeConfig,
    PermissionMode,
};
use ai_agent_bridge::paths::{
    attachment_name, extract_file_attachments, find_absolute_paths, mime_for_ext, FileFact,
};
use ai_agent_bridge::stream_event::{
    candidate_paths, parse_line, translate_event, ContentBlock, ControlReq, PartialDelta,
    PartialEvent, StreamEvent,
};
use ai_agent_bridge::types::{Attachment, AttachmentKind, Event, SessionKey};

#[test]
fn dirname_from_line_key() {
    let key = SessionKey::new("line", "U1234");
    assert_eq!(session_key_to_dirname(&key), "line__U1234");
}

#[test]
fn dirname_from_slack_key() {
    let key = SessionKey::new("slack", "C1/U2");
    assert_eq!(session_key_to_dirname(&key), "slack__C1__U2");
}

#[test]
fn dirname_from_stdio_key() {
    let key = SessionKey::new("stdio", "local");
    assert_eq!(session_key_to_dirname(&key), "stdio__local");
}

#[test]
fn dirname_strips_unsafe_chars() {
    let key = SessionKey(r#"line:U<>|"test""#.into());
    let dir = session_key_to_dirname(&key);
    assert!(!dir.contains('<'));
    assert!(!dir.contains('>'));
    assert!(!dir.contains('|'));
    assert!(!dir.contains('"'));
}

#[test]
fn dirname_keeps_letters_of_any_script() {
    let key = SessionKey::new("line", "使用者-1");
    assert_eq!(session_key_to_dirname(&key), "line__使用者-1");
}

#[test]
fn set_override_model() {
    let mut cfg = ClaudeCodeConfig::new("agent");
    cfg.set_override("model", "opus", Amount::NotANumber).unwrap();
    assert_eq!(cfg.model.as_deref(), Some("opus"));
}

#[test]
fn set_override_model_empty_clears() {
    let mut cfg = ClaudeCodeConfig { model: Some("sonnet".into()), ..ClaudeCodeConfig::new("agent") };
    cfg.set_override("model", "", Amount::NotANumber).unwrap();
    assert!(cfg.model.is_none());
}

#[test]
fn set_override_effort_valid() {
    let mut cfg = ClaudeCodeConfig::new("agent");
    for val in ["low", "medium", "high", "xhigh", "max"] {
        cfg.set_override("effort", val, Amount::NotANumber).unwrap();
    }
    assert_eq!(cfg.effort.as_deref(), Some("max"));
}

#[test]
fn set_override_effort_invalid_rejected() {
    let mut cfg = ClaudeCodeConfig::new("agent");
    assert!(cfg.set_override("effort", "turbo", Amount::NotANumber).is_err());
    assert!(cfg.effort.is_none());
}

#[test]
fn set_override_budget() {
    let mut cfg = ClaudeCodeConfig::new("agent");
    cfg.set_override("budget", "5.0", Amount::Positive("5".into())).unwrap();
    assert_eq!(cfg.max_budget_usd.as_deref(), Some("5"));
    assert!(cfg.set_override("budget", "x", Amount::NotANumber).is_err());
    assert_eq!(cfg.max_budget_usd.as_deref(), Some("5"));
    cfg.set_override("budget", "-1", Amount::NotPositive).unwrap();
    assert_eq!(cfg.max_budget_usd, None);
}

#[test]
fn set_override_add_dir() {
    let mut cfg = ClaudeCodeConfig::new("agent");
    cfg.set_override("add_dir", "/tmp/foo", Amount::NotANumber).unwrap();
    assert_eq!(cfg.add_dirs.len(), 1);
}

#[test]
fn set_override_unknown_rejected() {
    let mut cfg = ClaudeCodeConfig::new("agent");
    assert!(cfg.set_override("nonexistent", "val", Amount::NotANumber).is_err());
}

#[test]
fn tool_lists_grow_and_clear() {
    let mut cfg = ClaudeCodeConfig::new("agent");
    cfg.set_override("allow_tool", "Bash(git *)", Amount::NotANumber).unwrap();
    cfg.set_override("deny_tool", "Bash(rm *)", Amount::NotANumber).unwrap();
    assert_eq!(cfg.allowed_tools, vec!["Bash(git *)".to_string()]);
    assert_eq!(cfg.disallowed_tools, vec!["Bash(rm *)".to_string()]);
    cfg.set_override("clear_tools", "", Amount::NotANumber).unwrap();
    assert!(cfg.allowed_tools.is_empty() && cfg.disallowed_tools.is_empty());
}

#[test]
fn fresh_session_gets_a_session_id() {
    let cfg = ClaudeCodeConfig::new("agent");
    let args = spawn_args(&cfg, &None, "abc");
    assert!(args.windows(2).any(|w| w[0] == "--session-id" && w[1] == "abc"));
    assert!(!args.contains(&"--resume".to_string()));
    assert!(args.contains(&"--dangerously-skip-permissions".to_string()));
    assert!(args.contains(&"--include-partial-messages".to_string()));
}

#[test]
fn resumed_session_is_resumed() {
    let cfg = ClaudeCodeConfig { permission_mode: PermissionMode::Ask, ..ClaudeCodeConfig::new("agent") };
    let resume = Some("prev".to_string());
    assert_eq!(choose_session_id(&cfg, &resume), "prev");
    let args = spawn_args(&cfg, &resume, "prev");
    assert!(args.windows(2).any(|w| w[0] == "--resume" && w[1] == "prev"));
    assert!(!args.contains(&"--session-id".to_string()));
}

#[test]
fn chosen_id_is_fresh_without_a_session() {
    let cfg = ClaudeCodeConfig::new("agent");
    let id = choose_session_id(&cfg, &None);
    assert!(uuid::Uuid::parse_str(&id).is_ok());
    assert_ne!(id, choose_session_id(&cfg, &None));
}

#[test]
fn each_client_works_in_its_own_directory() {
    let cfg = ClaudeCodeConfig {
        client_config_base_dir: Some("/srv/clients".into()),
        cwd: Some("/elsewhere".into()),
        ..ClaudeCodeConfig::new("agent")
    };
    let key = SessionKey::new("slack", "C1/U2");
    assert_eq!(cfg.client_dir(&key).as_deref(), Some("/srv/clients/slack__C1__U2"));
    assert_eq!(cfg.for_client(&key).cwd.as_deref(), Some("/srv/clients/slack__C1__U2"));
    assert_eq!(ClaudeCodeConfig::new("agent").client_dir(&key), None);
}

fn image(bytes: u64) -> Attachment {
    Attachment {
        kind: AttachmentKind::Image,
        path: "/tmp/a.png".into(),
        mime: "image/png".into(),
        bytes: Some(bytes),
        name: None,
    }
}

#[test]
fn inline_image_under_threshold() {
    let v = serialize_attachment(&image(4), b"FAKE");
    assert_eq!(v.get("source").unwrap().get_text("type").as_deref(), Some("base64"));
    assert_eq!(v.get("source").unwrap().get_text("data").as_deref(), Some("RkFLRQ=="));
}

#[test]
fn large_image_still_uses_base64() {
    let v = serialize_attachment(&image(10_000_000), b"FAKE");
    assert_eq!(v.get("source").unwrap().get_text("type").as_deref(), Some("base64"));
}

#[test]
fn other_attachments_are_mentioned() {
    let att = Attachment {
        kind: AttachmentKind::File,
        path: "/tmp/r.pdf".into(),
        mime: "application/pdf".into(),
        bytes: None,
        name: None,
    };
    let v = serialize_attachment(&att, b"");
    assert_eq!(v.get_text("type").as_deref(), Some("text"));
    assert!(v.get_text("text").unwrap().contains("/tmp/r.pdf"));
    assert_eq!(attachment_name(&att), "r.pdf");
}

#[test]
fn find_paths_in_text() {
    let text = "整理好了，檔案在：\n\n/tmp/.tmpXSBOEw/slow_log_analysis.xlsx\n\n包含 5 個工作表";
    let paths = find_absolute_paths(text);
    assert_eq!(paths, vec!["/tmp/.tmpXSBOEw/slow_log_analysis.xlsx"]);
}

#[test]
fn find_multiple_paths() {
    let text = "Report: /home/user/report.pdf and data: /tmp/data.csv done.";
    let paths = find_absolute_paths(text);
    assert_eq!(paths.len(), 2);
    assert_eq!(paths[0], "/home/user/report.pdf");
    assert_eq!(paths[1], "/tmp/data.csv");
}

#[test]
fn ignores_non_downloadable_paths() {
    let text = "Edited /home/user/main.rs successfully";
    let paths = find_absolute_paths(text);
    assert_eq!(paths, vec!["/home/user/main.rs"]);
    assert!(mime_for_ext("rs").is_none());
}

#[test]
fn strips_trailing_punctuation() {
    let text = "File saved to /tmp/output.xlsx.";
    let paths = find_absolute_paths(text);
    assert_eq!(paths, vec!["/tmp/output.xlsx"]);
}

#[test]
fn extract_real_file() {
    let dir = tempfile::tempdir().unwrap();
    let path = dir.path().join("report.xlsx");
    let shown = path.display().to_string();
    let text = format!("Done! File at {shown}");
    let files = vec![FileFact { path: shown, bytes: Some(4) }];
    let atts = extract_file_attachments(&text, &files);
    assert_eq!(atts.len(), 1);
    assert_eq!(
        atts[0].mime,
        "application/vnd.openxmlformats-officedocument.spreadsheetml.sheet"
    );
    assert_eq!(atts[0].name.as_deref(), Some("report.xlsx"));
}

#[test]
fn skips_nonexistent_file() {
    let text = "File at /tmp/does_not_exist_12345.xlsx";
    let atts = extract_file_attachments(text, &vec![]);
    assert!(atts.is_empty());
}

#[test]
fn no_false_positives_on_slash_commands() {
    let text = "Try /new or /help for more options.";
    let paths = find_absolute_paths(text);
    assert!(paths.is_empty());
}

#[test]
fn parses_system_init() {
    let raw = r#"{"type":"system","subtype":"init","session_id":"abc","model":"sonnet"}"#;
    match parse_line(raw).unwrap() {
        StreamEvent::System { session_id, .. } => {
            assert_eq!(session_id.as_deref(), Some("abc"))
        }
        _ => panic!("variant"),
    }
}

#[test]
fn parses_assistant_text() {
    let raw = r#"{"type":"assistant","message":{"content":[{"type":"text","text":"hi"}]}}"#;
    match parse_line(raw).unwrap() {
        StreamEvent::Assistant { message, .. } => match &message.content[0] {
            ContentBlock::Text { text } => assert_eq!(text, "hi"),
            _ => panic!("block"),
        },
        _ => panic!("variant"),
    }
}

#[test]
fn parses_control_permission() {
    let raw = r#"{"type":"control_request","request_id":"r1","request":{"subtype":"permission_request","tool_name":"Bash","description":"ls","input":{}}}"#;
    match parse_line(raw).unwrap() {
        StreamEvent::ControlRequest { request_id, request } => {
            assert_eq!(request_id, "r1");
            match request {
                ControlReq::PermissionRequest { tool_name, .. } => assert_eq!(tool_name, "Bash"),
                _ => panic!("subtype"),
            }
        }
        _ => panic!("variant"),
    }
}

#[test]
fn unknown_subtype_falls_through() {
    let raw =
        r#"{"type":"control_request","request_id":"r2","request":{"subtype":"future_thing"}}"#;
    if let StreamEvent::ControlRequest { request, .. } = parse_line(raw).unwrap() {
        assert!(matches!(request, ControlReq::Unknown));
    } else {
        panic!("variant")
    }
}

#[test]
fn parses_partial_text_delta() {
    let raw = r#"{"type":"stream_event","event":{"type":"content_block_delta","index":0,"delta":{"type":"text_delta","text":"hel"}}}"#;
    match parse_line(raw).unwrap() {
        StreamEvent::StreamEvent { event, .. } => match event {
            PartialEvent::ContentBlockDelta { delta, .. } => match delta {
                PartialDelta::TextDelta { text } => assert_eq!(text, "hel"),
                _ => panic!("delta"),
            },
            _ => panic!("partial event"),
        },
        _ => panic!("variant"),
    }
}

#[test]
fn unknown_partial_event_falls_through() {
    let raw = r#"{"type":"stream_event","event":{"type":"message_start"}}"#;
    if let StreamEvent::StreamEvent { event, .. } = parse_line(raw).unwrap() {
        assert!(matches!(event, PartialEvent::Other));
    } else {
        panic!("variant");
    }
}

#[test]
fn malformed_lines_are_no_events() {
    assert!(parse_line("not json").is_none());
    assert!(parse_line("{\"type\":\"unheard_of\"}").is_none());
    assert!(parse_line("{\"type\":\"assistant\"}").is_none());
}

#[test]
fn result_ends_the_turn_with_its_session() {
    let mut sid = "old".to_string();
    let evt = parse_line(r#"{"type":"result","session_id":"new"}"#).unwrap();
    let events = translate_event("agent", evt, &mut sid, &vec![]);
    assert_eq!(sid, "new");
    assert_eq!(events, vec![Event::Done { session_id: "new".into() }]);
}

#[test]
fn failed_result_reports_its_errors() {
    let mut sid = "s".to_string();
    let raw = r#"{"type":"result","is_error":true,"errors":["a","b"]}"#;
    let events = translate_event("agent", parse_line(raw).unwrap(), &mut sid, &vec![]);
    assert_eq!(events[0], Event::Error("a; b".into()));
    assert_eq!(events.last(), Some(&Event::Done { session_id: "s".into() }));
}

#[test]
fn answer_hands_out_the_files_it_names() {
    let raw = r#"{"type":"assistant","message":{"content":[{"type":"text","text":"see /tmp/a.csv"},{"type":"tool_use","id":"t1","name":"Read","input":{}}]}}"#;
    let evt = parse_line(raw).unwrap();
    assert_eq!(candidate_paths(&evt), vec!["/tmp/a.csv".to_string()]);
    let files = vec![FileFact { path: "/tmp/a.csv".into(), bytes: Some(3) }];
    let mut sid = "s".to_string();
    let events = translate_event("agent", evt, &mut sid, &files);
    assert_eq!(events.len(), 3);
    assert_eq!(events[0], Event::AssistantText { text: "see /tmp/a.csv".into(), partial: false });
    match &events[1] {
        Event::AssistantAttachment(a) => {
            assert_eq!(a.path, "/tmp/a.csv");
            assert_eq!(a.bytes, Some(3));
        }
        other => panic!("{other:?}"),
    }
    assert_eq!(events[2], Event::ToolStart { name: "Read".into(), id: "t1".into() });
}

#[test]
fn frames_have_their_form() {
    assert_eq!(
        make_user_frame("hi", vec![]).to_text(),
        r#"{"message":{"content":[{"text":"hi","type":"text"}],"role":"user"},"type":"user"}"#
    );
    assert_eq!(
        make_answer_frame("r1", true).to_text(),
        r#"{"request_id":"r1","response":{"approved":true},"type":"control_response"}"#
    );
    assert_eq!(
        make_interrupt_frame().to_text(),
        r#"{"request":{"subtype":"interrupt"},"type":"control_request"}"#
    );
}

#[test]
fn configured_id_comes_first() {
    let cfg = ClaudeCodeConfig { session_id: Some("set".into()), ..ClaudeCodeConfig::new("agent") };
    let plain = ClaudeCodeConfig::new("agent");
    let resume = Some("prev".to_string());
    assert_eq!(pick_session_id(&cfg, &resume, "new".into()), "set");
    assert_eq!(pick_session_id(&plain, &resume, "new".into()), "prev");
    assert_eq!(pick_session_id(&plain, &None, "new".into()), "new");
}

#[test]
fn command_line_names_the_session() {
    let cfg = ClaudeCodeConfig { session_id: Some("set".into()), ..ClaudeCodeConfig::new("agent") };
    let id = pick_session_id(&cfg, &None, "new".into());
    let args = spawn_args(&cfg, &None, &id);
    assert!(args.windows(2).any(|w| w[0] == "--session-id" && w[1] == "set"));
}

#[test]
fn clients_do_not_share_a_directory() {
    let cfg = ClaudeCodeConfig {
        client_config_base_dir: Some("/srv".into()),
        ..ClaudeCodeConfig::new("agent")
    };
    let a = cfg.client_dir(&SessionKey::new("line", "Ua")).unwrap();
    let b = cfg.client_dir(&SessionKey::new("line", "Ub")).unwrap();
    let c = cfg.client_dir(&SessionKey::new("slack", "Ua")).unwrap();
    assert!(a != b && a != c && b != c);
    let d = cfg.client_dir(&SessionKey::new("line", "使用者_1")).unwrap();
    let e = cfg.client_dir(&SessionKey::new("line", "使用者-1")).unwrap();
    assert!(d != e);
    assert_eq!(d, "/srv/line__使用者_1");
}

#[test]
fn untidy_keys_share_a_directory() {
    let a = session_key_to_dirname(&SessionKey::new("line", "a/b"));
    let b = session_key_to_dirname(&SessionKey::new("line", "a__b"));
    assert_eq!(a, b);
}

#[test]
fn only_named_files_are_handed_out() {
    let files = vec![
        FileFact { path: "/tmp/other.csv".into(), bytes: Some(9) },
        FileFact { path: "/tmp/a.csv".into(), bytes: Some(3) },
    ];
    let atts = extract_file_attachments("see /tmp/a.csv and /tmp/a.csv, not /tmp/gone.csv", &files);
    assert_eq!(atts.len(), 1);
    assert_eq!(atts[0].path, "/tmp/a.csv");
}

#[test]
fn stream_events_are_read_from_lists() {
    match parse_line(r#"["assistant",[[["text","hi"],["tool_use","t1","Read"]]],"s"]"#).unwrap() {
        StreamEvent::Assistant { message, session_id } => {
            assert_eq!(session_id.as_deref(), Some("s"));
            assert_eq!(message.content[0], ContentBlock::Text { text: "hi".into() });
        }
        other => panic!("{other:?}"),
    }
    assert_eq!(
        parse_line(r#"{"type":"stream_event","event":{"type":0,"delta":{"type":0,"text":"x"}}}"#),
        Some(StreamEvent::StreamEvent {
            session_id: None,
            event: PartialEvent::ContentBlockDelta {
                index: 0,
                delta: PartialDelta::TextDelta { text: "x".into() },
            },
        })
    );
    assert_eq!(
        parse_line(r#"["control_request","r1",["interrupt"]]"#),
        Some(StreamEvent::ControlRequest {
            request_id: "r1".into(),
            request: ControlReq::Interrupt,
        })
    );
    assert_eq!(parse_line(r#"["system","init","s"]"#), None);
    assert_eq!(parse_line(r#"[0,"r1"]"#), None);
}
