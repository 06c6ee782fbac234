//! Agents behind a protocol, an HTTP interface or a command, and the framing of
//! their streams.

use ai_agent_bridge::acp::{
    answer_notification, answer_params, cancel_notification, cancel_params, parse_session_update,
    read_initialized, translate_permission, translate_update, turn_params, turn_request, AcpAgent,
    AcpConfig, ContentBlock, Handshake, ImageSource, PromptBlock, UpdateBody,
};
use ai_agent_bridge::cli_agent::{attachment_env, CliAgent, CliAgentConfig};
use ai_agent_bridge::echo::EchoAgent;
use ai_agent_bridge::framing::{frame_line, read_line, truncate, Line};
use ai_agent_bridge::http_agent::{
    completions_url, parse_chunk, read_answer, refused, Answer, HttpAgent, HttpAgentConfig,
    HttpSession, Part, Retry, Verdict, Wait,
};
use ai_agent_bridge::json::Json;
use ai_agent_bridge::jsonrpc::{
    notify, read_frame, Delivery, Incoming, JsonRpcClient, JsonRpcError, PendingMap,
};
use ai_agent_bridge::types::{Attachment, AttachmentKind, Event};

fn read(raw: &str) -> Json {
    Json::of_text(raw).unwrap()
}

// ── Framing ─────────────────────────────────────────────────────────────

#[test]
fn ndjson_round_trip() {
    for raw in [r#"{"a":1}"#, r#"{"a":2}"#] {
        let line = frame_line(&read(raw));
        assert!(line.ends_with('\n'));
        assert_eq!(read_line(&line), Line::Value(read(raw)));
    }
    assert_eq!(frame_line(&Json::Str("a\nb".into())), "\"a\\nb\"\n");
}

#[test]
fn ndjson_skips_bad_lines() {
    assert_eq!(read_line("not json\n"), Line::Malformed);
    assert_eq!(read_line("  \t\n"), Line::Blank);
    assert_eq!(read_line("{\"a\":7}\n"), Line::Value(read("{\"a\":7}")));
}

#[test]
fn long_lines_are_cut_between_characters() {
    assert_eq!(truncate("short", 200), "short");
    assert_eq!(truncate("abcdef", 3), "abc…");
    assert_eq!(truncate("正正", 4), "正…");
}

// ── JSON-RPC ────────────────────────────────────────────────────────────

#[test]
fn request_response_round_trip() {
    let mut client = JsonRpcClient::new();
    let (id, frame) = client.request("ping", read(r#"{"x":1}"#), 70);
    assert_eq!(id, 1);
    assert_eq!(frame.to_text(), r#"{"id":1,"jsonrpc":"2.0","method":"ping","params":{"x":1}}"#);
    let reply = read(r#"{"jsonrpc":"2.0","id":1,"result":{"echo":{"x":1}}}"#);
    assert_eq!(
        client.deliver(&reply),
        Delivery::Reply { ticket: 70, outcome: Ok(read(r#"{"echo":{"x":1}}"#)) }
    );
    assert_eq!(client.deliver(&reply), Delivery::Dropped);
    assert_eq!(client.request("ping", Json::Null, 71).0, 2);
}

#[test]
fn notification_routed_to_method_channel() {
    let mut client = JsonRpcClient::new();
    client.register_route("session/update", 4);
    let frame = read(
        r#"{"jsonrpc":"2.0","method":"session/update","params":{"sessionId":"s1","update":"hi"}}"#,
    );
    match client.deliver(&frame) {
        Delivery::Notification { route, params } => {
            assert_eq!(route, 4);
            assert_eq!(params.get_text("sessionId").as_deref(), Some("s1"));
        }
        other => panic!("{other:?}"),
    }
    assert_eq!(client.deliver(&read(r#"{"method":"other"}"#)), Delivery::Dropped);
}

#[test]
fn errors_reach_the_request() {
    let mut client = JsonRpcClient::new();
    client.request("x", Json::Null, 1);
    let reply = read(r#"{"id":1,"error":{"code":-32601,"message":"no such method"}}"#);
    match client.deliver(&reply) {
        Delivery::Reply { outcome: Err(e), .. } => {
            assert_eq!(e.message(), "JSON-RPC -32601: no such method");
        }
        other => panic!("{other:?}"),
    }
}

#[test]
fn late_replies_are_dropped() {
    let mut client = JsonRpcClient::new();
    let (id, _) = client.request("slow", Json::Null, 9);
    assert_eq!(client.timed_out(id), Some(9));
    assert_eq!(client.timed_out(id), None);
    assert_eq!(client.deliver(&read(r#"{"id":1,"result":{}}"#)), Delivery::Dropped);
}

#[test]
fn frames_of_other_shapes_are_unknown() {
    assert_eq!(read_frame(&read("[]")), Incoming::Unknown);
    assert_eq!(read_frame(&read(r#"{"id":"one","result":1}"#)), Incoming::Unknown);
    assert_eq!(read_frame(&read(r#"{"id":1,"result":null}"#)), Incoming::Unknown);
    assert_eq!(
        read_frame(&read(r#"{"id":2,"error":{"code":1,"message":"m","data":[1]}}"#)),
        Incoming::Reply {
            id: 2,
            outcome: Err(JsonRpcError {
                code: 1,
                message: "m".into(),
                data: Some(read("[1]")),
            }),
        }
    );
    assert_eq!(
        notify("client/initialized", read("{}")).to_text(),
        r#"{"jsonrpc":"2.0","method":"client/initialized","params":{}}"#
    );
}

#[test]
fn pending_requests_resolve_once() {
    let mut pending = PendingMap::new();
    pending.insert(3, 30);
    pending.insert(4, 40);
    assert_eq!(pending.resolve(3), Some(30));
    assert_eq!(pending.resolve(3), None);
    assert_eq!(pending.resolve(4), Some(40));
}

// ── Agent Client Protocol ───────────────────────────────────────────────

#[test]
fn parse_session_update_text_chunk() {
    let raw = r#"{
        "sessionId":"s1",
        "update":{"kind":"agent_message_chunk","content":{"type":"text","text":"hi"}}
    }"#;
    let u = parse_session_update(raw).unwrap();
    assert_eq!(u.session_id, "s1");
    match u.update {
        UpdateBody::AgentMessageChunk { content } => match content {
            ContentBlock::Text { text } => assert_eq!(text, "hi"),
            _ => panic!("content"),
        },
        _ => panic!("kind"),
    }
}

#[test]
fn parse_tool_call() {
    let raw = r#"{
        "sessionId":"s1",
        "update":{"kind":"tool_call","toolCallId":"t1","title":"Read"}
    }"#;
    let u = parse_session_update(raw).unwrap();
    assert!(matches!(u.update, UpdateBody::ToolCall { .. }));
}

#[test]
fn unknown_update_kind_falls_through() {
    let raw = r#"{"sessionId":"s","update":{"kind":"futuristic"}}"#;
    let u = parse_session_update(raw).unwrap();
    assert!(matches!(u.update, UpdateBody::Other));
}

#[test]
fn handshake_opens_a_new_session() {
    let (mut h, method, params) = Handshake::start("/work", &None, "0.1.0");
    assert_eq!(method, "initialize");
    assert_eq!(
        params.to_text(),
        r#"{"clientCapabilities":{"clientInfo":{"name":"ai-agent-bridge","version":"0.1.0"},"fs":{"readTextFile":true,"writeTextFile":true}},"protocolVersion":1}"#
    );
    let sends = h.advance(Some(read(r#"{"protocolVersion":1}"#)));
    let (method, params) = sends.notification.unwrap();
    assert_eq!(method, "client/initialized");
    assert_eq!(params.to_text(), "{}");
    let (method, params) = sends.request.unwrap();
    assert_eq!(method, "session/new");
    assert_eq!(params.to_text(), r#"{"cwd":"/work","mcpServers":[]}"#);
    let sends = h.advance(Some(read(r#"{"sessionId":"s9"}"#)));
    assert!(sends.notification.is_none());
    assert!(sends.request.is_none());
    assert_eq!(h, Handshake::Open { id: "s9".into() });
}

#[test]
fn handshake_falls_back_to_a_new_session() {
    let (mut h, _, _) = Handshake::start("/w", &Some("old".into()), "1");
    let (method, params) = h.advance(Some(read("{}"))).request.unwrap();
    assert_eq!(method, "session/load");
    assert_eq!(params.to_text(), r#"{"cwd":"/w","sessionId":"old"}"#);
    let (method, _) = h.advance(None).request.unwrap();
    assert_eq!(method, "session/new");
    h.advance(Some(read(r#"{"sessionId":"fresh"}"#)));
    assert_eq!(h, Handshake::Open { id: "fresh".into() });
}

#[test]
fn loaded_session_keeps_its_id() {
    let (mut h, _, _) = Handshake::start("/w", &Some("old".into()), "1");
    h.advance(Some(read("{}")));
    h.advance(Some(read("{}")));
    assert_eq!(h, Handshake::Open { id: "old".into() });
}

#[test]
fn failed_handshake_stays_failed() {
    let (mut h, _, _) = Handshake::start("/w", &None, "1");
    h.advance(None);
    assert_eq!(h, Handshake::Failed);
    assert!(h.advance(Some(read(r#"{"sessionId":"x"}"#))).request.is_none());
    assert_eq!(h, Handshake::Failed);
    assert!(read_initialized(&read("7")).is_none());
    assert_eq!(read_initialized(&read("{}")).unwrap().protocol_version, 0);
}

#[test]
fn updates_become_events_of_their_session() {
    let chunk = read(
        r#"{"sessionId":"s","update":{"kind":"agent_message_chunk","content":{"type":"text","text":"x"}}}"#,
    );
    assert_eq!(
        translate_update(&chunk, "s"),
        Some(Event::AssistantText { text: "x".into(), partial: true })
    );
    assert_eq!(translate_update(&chunk, "other"), None);
    let running = read(
        r#"{"sessionId":"s","update":{"kind":"tool_call_update","toolCallId":"t","status":"in_progress"}}"#,
    );
    assert_eq!(translate_update(&running, "s"), None);
    let done = read(
        r#"{"sessionId":"s","update":{"kind":"tool_call_update","toolCallId":"t","status":"completed"}}"#,
    );
    assert_eq!(
        translate_update(&done, "s"),
        Some(Event::ToolEnd { id: "t".into(), ok: true })
    );
}

#[test]
fn permission_requests_name_the_tool() {
    let asked = read(
        r#"{"sessionId":"s","requestId":"r1","toolCall":{"title":"Bash","kind":"execute"}}"#,
    );
    match translate_permission(&asked, "s") {
        Some(Event::PermissionRequest(p)) => {
            assert_eq!(p.id, "r1");
            assert_eq!(p.tool_name, "Bash");
            assert_eq!(p.description, "execute");
        }
        other => panic!("{other:?}"),
    }
    assert_eq!(translate_permission(&asked, "t"), None);
    assert_eq!(
        answer_params("s", "r1", false).to_text(),
        r#"{"outcome":{"type":"denied"},"requestId":"r1","sessionId":"s"}"#
    );
    assert_eq!(cancel_params("s").to_text(), r#"{"sessionId":"s"}"#);
    assert_eq!(answer_notification("s", "r1", true).0, "session/respond_to_permission_request");
    assert_eq!(cancel_notification("s").0, "session/cancel");
    assert_eq!(turn_request("s", "hi", &vec![]).0, "session/prompt");
}

fn file(kind: AttachmentKind, path: &str) -> Attachment {
    Attachment {
        kind,
        path: path.into(),
        mime: "image/png".into(),
        bytes: None,
        name: None,
    }
}

#[test]
fn prompts_carry_attachments() {
    let atts = vec![
        file(AttachmentKind::Image, "/tmp/a.png"),
        file(AttachmentKind::File, "/tmp/b.pdf"),
    ];
    assert_eq!(
        turn_params("s", "look", &atts).to_text(),
        r#"{"prompt":[{"text":"look","type":"text"},{"source":{"mediaType":"image/png","path":"/tmp/a.png","type":"path"},"type":"image"},{"text":"[attachment: /tmp/b.pdf]","type":"text"}],"sessionId":"s"}"#
    );
    assert_eq!(turn_params("s", "", &vec![]).to_text(), r#"{"prompt":[],"sessionId":"s"}"#);
    let inline = PromptBlock::Image {
        source: ImageSource::Base64 { media_type: "image/png".into(), data: "AA==".into() },
    };
    assert_eq!(
        inline.to_json().to_text(),
        r#"{"source":{"data":"AA==","mediaType":"image/png","type":"base64"},"type":"image"}"#
    );
    let agent = AcpAgent::new(AcpConfig { binary: "b".into(), args: vec![], cwd: None });
    assert_eq!(agent.name(), "acp");
}

// ── HTTP ────────────────────────────────────────────────────────────────

#[test]
fn parse_openai_chunk() {
    let raw = r#"{"id":"x","choices":[{"index":0,"delta":{"content":"hello"}}]}"#;
    let c = parse_chunk(raw).unwrap();
    assert_eq!(c.choices[0].delta.content.as_deref(), Some("hello"));
}

#[test]
fn parse_chunk_without_content() {
    let raw = r#"{"choices":[{"index":0,"delta":{}}]}"#;
    let c = parse_chunk(raw).unwrap();
    assert!(c.choices[0].delta.content.is_none());
}

#[test]
fn malformed_chunks_are_skipped() {
    let mut a = Answer::new();
    assert_eq!(a.take("oops"), Part::Nothing);
    assert_eq!(a.take(r#"{"choices":7}"#), Part::Nothing);
    assert_eq!(a.take(r#"{"choices":[{"delta":{"content":""}}]}"#), Part::Nothing);
    assert_eq!(a.text, "");
}

#[test]
fn streamed_parts_add_up_to_the_answer() {
    let mut session = HttpSession::start();
    session.ask("hi");
    let mut a = Answer::new();
    let mut shown = String::new();
    for part in ["he", "llo"] {
        let data = format!("{{\"choices\":[{{\"delta\":{{\"content\":\"{part}\"}}}}]}}");
        match a.take(&data) {
            Part::Text(t) => shown.push_str(&t),
            other => panic!("{other:?}"),
        }
    }
    assert_eq!(a.take("[DONE]"), Part::End);
    assert_eq!(shown, a.text);
    let end = session.answer(a.text);
    assert_eq!(end, Some(Event::AssistantText { text: "hello".into(), partial: false }));
    assert_eq!(
        session.request_body("m", true).to_text(),
        r#"{"messages":[{"content":"hi","role":"user"},{"content":"hello","role":"assistant"}],"model":"m","stream":true}"#
    );
    let id = session.id.clone();
    assert_eq!(session.turn_end(None), vec![Event::Done { session_id: id.clone() }]);
    assert_eq!(
        session.turn_end(Some("HTTP 500".into())),
        vec![Event::Error("HTTP 500".into()), Event::Done { session_id: id }]
    );
}

#[test]
fn empty_answers_leave_no_trace() {
    let mut session = HttpSession::start();
    session.ask("hi");
    assert_eq!(session.answer(String::new()), None);
    assert_eq!(session.history.len(), 1);
}

#[test]
fn whole_answers_are_read_from_the_first_choice() {
    let v = read(r#"{"choices":[{"message":{"content":"a"}},{"message":{"content":"b"}}]}"#);
    assert_eq!(read_answer(&v), "a");
    assert_eq!(read_answer(&read(r#"{"choices":[]}"#)), "");
    assert_eq!(read_answer(&read(r#"{"choices":{"0":{"message":{"content":"c"}}}}"#)), "c");
}

#[test]
fn urls_end_in_one_slash() {
    assert_eq!(completions_url("https://x/v1///"), "https://x/v1/chat/completions");
    let agent = HttpAgent::new(HttpAgentConfig::default());
    assert_eq!(agent.name(), "http");
    assert_eq!(completions_url(&agent.cfg.base_url), "https://api.openai.com/v1/chat/completions");
}

#[test]
fn passing_failures_are_retried_with_growing_waits() {
    let mut r = Retry::new();
    assert_eq!(r.on_response(200, "200 OK", &None), Verdict::Accept);
    assert_eq!(
        r.on_response(503, "503 Service Unavailable", &None),
        Verdict::Again(Wait::Millis(500))
    );
    assert_eq!(
        r.on_response(429, "429 Too Many Requests", &Some("7".into())),
        Verdict::Again(Wait::Seconds(7))
    );
    assert!(r.may_try());
    assert_eq!(
        r.on_response(500, "500 Internal Server Error", &Some("soon".into())),
        Verdict::Again(Wait::Millis(2000))
    );
    assert!(!r.may_try());
    assert_eq!(r.given_up(), "HTTP 500 Internal Server Error");
}

#[test]
fn three_requests_are_made_at_most() {
    let mut r = Retry::new();
    let mut waits = Vec::new();
    while r.may_try() {
        waits.push(r.on_failure("refused".into()));
    }
    assert_eq!(waits, vec![Wait::Millis(500), Wait::Millis(1000), Wait::Millis(2000)]);
    assert_eq!(r.given_up(), "refused");
}

#[test]
fn refusals_are_final() {
    let mut r = Retry::new();
    assert_eq!(r.on_response(401, "401 Unauthorized", &None), Verdict::Refuse);
    assert_eq!(refused("401 Unauthorized", "no key"), "HTTP 401 Unauthorized: no key");
    assert_eq!(r.given_up(), "retry budget exhausted");
}

// ── Commands ────────────────────────────────────────────────────────────

fn cli(supports_resume: bool) -> CliAgent {
    CliAgent::new(
        "test",
        CliAgentConfig { binary: "echo".into(), args: vec!["-n".into()], supports_resume },
    )
}

#[test]
fn cli_session_id_uses_resume_when_provided() {
    let session = cli(false).start_session(Some("prev-id".into()));
    assert_eq!(session.id(), "prev-id");
}

#[test]
fn cli_session_generates_uuid_without_resume() {
    let id = cli(false).start_session(None).id();
    assert!(!id.is_empty());
    assert!(uuid::Uuid::parse_str(&id).is_ok());
}

#[test]
fn prompt_is_the_last_argument() {
    let agent = cli(true);
    let session = agent.start_session(Some("s".into()));
    assert_eq!(
        session.command_args(&agent.cfg, "--help me"),
        vec!["-n", "--resume", "s", "--help me"]
    );
    let plain = cli(false);
    assert_eq!(session.command_args(&plain.cfg, "hi"), vec!["-n", "hi"]);
    assert_eq!(
        session.finished("out".into()),
        vec![
            Event::AssistantText { text: "out".into(), partial: false },
            Event::Done { session_id: "s".into() },
        ]
    );
}

#[test]
fn commands_learn_of_attachments() {
    assert!(attachment_env(&vec![]).is_empty());
    let atts = vec![file(AttachmentKind::File, "/a"), file(AttachmentKind::Image, "/b")];
    assert_eq!(
        attachment_env(&atts),
        vec![
            ("AAB_ATTACHMENTS".to_string(), "/a\n/b".to_string()),
            ("AAB_ATTACHMENT_COUNT".to_string(), "2".to_string()),
        ]
    );
}

#[test]
fn echo_repeats_the_prompt() {
    assert_eq!(EchoAgent.name(), "echo");
    assert_eq!(
        EchoAgent.start_session().send("hi"),
        vec![
            Event::AssistantText { text: "echo: hi".into(), partial: false },
            Event::Done { session_id: "echo-1".into() },
        ]
    );
}

// ── Fields in a list ────────────────────────────────────────────────────

#[test]
fn frames_are_read_from_lists() {
    assert_eq!(
        read_frame(&read(r#"[7,null,null,{"ok":1}]"#)),
        Incoming::Reply { id: 7, outcome: Ok(read(r#"{"ok":1}"#)) }
    );
    assert_eq!(
        read_frame(&read(r#"[null,"m",[1]]"#)),
        Incoming::Notification { method: "m".into(), params: read("[1]") }
    );
    assert_eq!(
        read_frame(&read(r#"[7,null,null,null,[-32000,"bad"]]"#)),
        Incoming::Reply {
            id: 7,
            outcome: Err(JsonRpcError { code: -32000, message: "bad".into(), data: None }),
        }
    );
    assert_eq!(read_frame(&read("[]")), Incoming::Unknown);
    assert_eq!(read_frame(&read("[7,null,null,1,null,0]")), Incoming::Unknown);
}

#[test]
fn updates_are_read_from_lists() {
    let u = parse_session_update(r#"["s",["agent_message_chunk",["text","hi"]]]"#).unwrap();
    assert_eq!(u.session_id, "s");
    assert_eq!(
        u.update,
        UpdateBody::AgentMessageChunk { content: ContentBlock::Text { text: "hi".into() } }
    );
    let raw = r#"{"sessionId":"s","update":{"kind":"agent_message_chunk","content":{"type":0,"text":"n"}}}"#;
    assert_eq!(
        parse_session_update(raw).unwrap().update,
        UpdateBody::AgentMessageChunk { content: ContentBlock::Text { text: "n".into() } }
    );
    assert_eq!(
        parse_session_update(r#"["s",["tool_call","t1"]]"#).unwrap().update,
        UpdateBody::ToolCall { tool_call_id: "t1".into(), title: None, tool_kind: None }
    );
    assert_eq!(parse_session_update(r#"["s",["futuristic"]]"#).unwrap().update, UpdateBody::Other);
    assert!(parse_session_update(r#"["s",["futuristic",1]]"#).is_none());
    assert!(parse_session_update(r#"["s",["plan",1,2]]"#).is_none());
    assert!(parse_session_update(r#"["s"]"#).is_none());
    assert_eq!(read_initialized(&read("[3]")).unwrap().protocol_version, 3);
}

#[test]
fn chunks_are_read_from_lists() {
    let c = parse_chunk(r#"[[[["hi"]],[]]]"#).unwrap();
    assert_eq!(c.choices[0].delta.content.as_deref(), Some("hi"));
    assert_eq!(c.choices[1].delta.content, None);
    assert!(parse_chunk("[]").unwrap().choices.is_empty());
    assert!(parse_chunk("[[],1]").is_none());
}
