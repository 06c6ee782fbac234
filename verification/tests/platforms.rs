//! The messaging platforms: what comes in and what goes out.

use ai_agent_bridge::discord::{
    self, gateway_url, post_url, strip_mentions, DiscordConfig, DiscordPlatform, GatewayAction,
};
use ai_agent_bridge::json::Json;
use ai_agent_bridge::line::{
    attachment_message, content, content_type, content_url, download_name, ext_from_mime,
    extract_reply_token, push_body, read_webhook, recipient, reply_batches, reply_body,
    unpublished_text, Content, Delivery, Inbound, LineConfig, LinePlatform, Webhook,
};
use ai_agent_bridge::sign::verify_signature;
use ai_agent_bridge::slack::{
    self, accept, bot_identity, complete_body, needs_identity, plan_download, read_envelope,
    read_message_event, read_payload, read_reply, receive, socket_url, upload_completed,
    upload_target, ApiReply, Backoff, MessageEvent, SlackConfig, SlackEvent, SlackPlatform,
};
use ai_agent_bridge::split::split_text;
use ai_agent_bridge::stdio::StdioPlatform;
use ai_agent_bridge::telegram::{
    self, read_response, read_update, upload_method, TelegramConfig, TelegramPlatform,
    TELEGRAM_TEXT_MAX,
};
use ai_agent_bridge::types::{Attachment, AttachmentKind, ReplyCtx};
use base64::Engine;
use hmac::{Hmac, KeyInit, Mac};
use sha2::Sha256;

fn read(raw: &str) -> Json {
    Json::of_text(raw).unwrap()
}

fn texts(v: &[Json]) -> Vec<String> {
    v.iter().map(|j| j.to_text()).collect()
}

fn att(kind: AttachmentKind, name: Option<&str>) -> Attachment {
    Attachment {
        kind,
        path: "/tmp/x".into(),
        mime: "m/m".into(),
        bytes: None,
        name: name.map(|n| n.to_string()),
    }
}

// ── Discord ─────────────────────────────────────────────────────────────

#[test]
fn strip_mentions_removes_mention() {
    let input = "<@123456> hello world";
    assert_eq!(strip_mentions(input), "hello world");
}

#[test]
fn strip_mentions_multiple() {
    let input = "<@111> hey <@222> there";
    assert_eq!(strip_mentions(input), "hey  there");
}

#[test]
fn strip_mentions_no_mention() {
    let input = "plain text";
    assert_eq!(strip_mentions(input), "plain text");
}

#[test]
fn unclosed_mentions_are_kept() {
    assert_eq!(strip_mentions("a <@12"), "a <@12");
    assert_eq!(strip_mentions("<@1><@2>"), "");
    assert!(!strip_mentions("<<@1>@2> x").contains("<@"));
}

fn discord_bot() -> DiscordPlatform {
    DiscordPlatform::new(DiscordConfig { bot_token: "tok".into() })
}

#[test]
fn gateway_identifies_once() {
    let mut p = discord_bot();
    assert_eq!(p.name(), "discord");
    assert_eq!(p.auth_header(), "Bot tok");
    p.connected();
    let hello = r#"{"op":10,"d":{"heartbeat_interval":30000}}"#;
    assert_eq!(p.on_text(hello), GatewayAction::Identify);
    assert_eq!(p.heartbeat_ms, 30_000);
    assert_eq!(p.on_text(hello), GatewayAction::Nothing);
    assert_eq!(
        p.identify_payload().to_text(),
        r#"{"d":{"intents":37377,"properties":{"browser":"ai-agent-bridge","device":"ai-agent-bridge","os":"linux"},"token":"tok"},"op":2}"#
    );
}

#[test]
fn gateway_answers_by_kind() {
    let mut p = discord_bot();
    p.connected();
    assert_eq!(p.on_text(r#"{"op":1,"s":12}"#), GatewayAction::Heartbeat);
    assert_eq!(p.heartbeat().to_text(), r#"{"d":12,"op":1}"#);
    assert_eq!(p.on_text(r#"{"op":7}"#), GatewayAction::Reconnect);
    assert_eq!(p.on_text(r#"{"op":9,"d":false}"#), GatewayAction::Reidentify);
    assert_eq!(p.on_text(r#"{"op":11}"#), GatewayAction::Nothing);
    assert_eq!(p.on_text("not json"), GatewayAction::Nothing);
    assert_eq!(p.on_text(r#"{"op":"ten"}"#), GatewayAction::Nothing);
}

#[test]
fn gateway_delivers_messages_meant_for_the_bot() {
    let mut p = discord_bot();
    p.connected();
    p.on_text(r#"{"op":0,"t":"READY","d":{"user":{"id":"B1"}}}"#);
    p.on_text(r#"{"op":0,"t":"READY","d":{"user":{"id":"B2"}}}"#);
    assert_eq!(p.bot_user_id.as_deref(), Some("B1"));
    let said = |guild: &str, bot: bool, content: &str| {
        format!(
            "{{\"op\":0,\"t\":\"MESSAGE_CREATE\",\"d\":{{{guild}\"channel_id\":\"C\",\"content\":\"{content}\",\"author\":{{\"id\":\"U\",\"bot\":{bot}}}}}}}"
        )
    };
    match p.on_text(&said("", false, "hi")) {
        GatewayAction::Deliver(m) => {
            assert_eq!(m.key.0, "discord:C/U");
            assert_eq!(m.text, "hi");
            assert_eq!(m.reply_ctx.channel.as_deref(), Some("C"));
        }
        other => panic!("{other:?}"),
    }
    let guild = "\"guild_id\":\"G\",";
    assert_eq!(p.on_text(&said(guild, false, "hi")), GatewayAction::Nothing);
    match p.on_text(&said(guild, false, "<@B1> hi")) {
        GatewayAction::Deliver(m) => assert_eq!(m.text, "hi"),
        other => panic!("{other:?}"),
    }
    assert_eq!(p.on_text(&said(guild, true, "<@B1> hi")), GatewayAction::Nothing);
    assert_eq!(p.on_text(&said(guild, false, "<@B1>")), GatewayAction::Nothing);
}

#[test]
fn discord_replies_fit_in_messages() {
    let ctx = ReplyCtx { channel: Some("C".into()), ..Default::default() };
    let (url, bodies) = discord::reply(&ctx, &"a".repeat(4500)).unwrap();
    assert_eq!(url, "https://discord.com/api/v10/channels/C/messages");
    assert_eq!(bodies.len(), 3);
    assert_eq!(bodies[2].to_text(), format!("{{\"content\":\"{}\"}}", "a".repeat(500)));
    assert_eq!(
        discord::reply(&ReplyCtx::default(), "x"),
        Err("Discord reply requires channel_id".to_string())
    );
    assert_eq!(
        post_url(&ctx, "/typing").as_deref(),
        Some("https://discord.com/api/v10/channels/C/typing")
    );
    assert_eq!(
        gateway_url(&read(r#"{"url":"wss://g"}"#)).as_deref(),
        Some("wss://g/?v=10&encoding=json")
    );
    assert_eq!(gateway_url(&read("{}")), None);
}

// ── Splitting ───────────────────────────────────────────────────────────

#[test]
fn short_text_no_split() {
    let chunks = split_text("hello world", 5000);
    assert_eq!(chunks, vec!["hello world"]);
}

#[test]
fn splits_at_section_divider() {
    let text = format!("{}\n---\n{}", "A".repeat(100), "B".repeat(100));
    let chunks = split_text(&text, 150);
    assert_eq!(chunks.len(), 2);
    assert!(chunks[0].starts_with('A'));
    assert!(chunks[1].starts_with('B'));
}

#[test]
fn splits_at_double_newline() {
    let text = format!("{}\n\n{}", "A".repeat(100), "B".repeat(100));
    let chunks = split_text(&text, 150);
    assert_eq!(chunks.len(), 2);
}

#[test]
fn splits_at_single_newline_fallback() {
    let text = format!("{}\n{}", "A".repeat(100), "B".repeat(100));
    let chunks = split_text(&text, 150);
    assert_eq!(chunks.len(), 2);
}

#[test]
fn hard_cut_no_newline() {
    let text = "A".repeat(300);
    let chunks = split_text(&text, 100);
    assert!(chunks.len() >= 3);
    for chunk in &chunks {
        assert!(chunk.len() <= 100);
    }
}

#[test]
fn multibyte_chars_no_panic() {
    let text = "正".repeat(2000);
    let chunks = split_text(&text, 5000);
    assert!(chunks.len() >= 2);
    for chunk in &chunks {
        assert!(chunk.len() <= 5000);
    }
}

#[test]
fn real_world_long_message() {
    let sections: Vec<String> = (0..10)
        .map(|i| format!("## Section {}\n{}", i, "content ".repeat(80)))
        .collect();
    let text = sections.join("\n\n");
    let chunks = split_text(&text, 5000);
    assert!(chunks.len() > 1);
    for chunk in &chunks {
        assert!(chunk.len() <= 5000, "chunk too long: {}", chunk.len());
    }
}

#[test]
fn text_split_at_telegram_limit() {
    let text = "A".repeat(8000);
    let chunks = split_text(&text, TELEGRAM_TEXT_MAX);
    assert!(chunks.len() >= 2);
    for chunk in &chunks {
        assert!(chunk.len() <= TELEGRAM_TEXT_MAX);
    }
}

#[test]
fn parts_add_up_to_the_text() {
    assert_eq!(split_text("aaaa bbbb", 4).concat(), "aaaa bbbb");
    assert_eq!(split_text("ab\n\ncd", 5), vec!["ab", "cd"]);
    assert_eq!(split_text("ab\ncd", 4), vec!["ab", "cd"]);
}

// ── LINE ────────────────────────────────────────────────────────────────

fn signature(secret: &str, body: &[u8]) -> String {
    let mut mac = Hmac::<Sha256>::new_from_slice(secret.as_bytes()).unwrap();
    mac.update(body);
    base64::engine::general_purpose::STANDARD.encode(mac.finalize().into_bytes())
}

#[test]
fn good_signature_passes() {
    let secret = "topsecret";
    let body = br#"{"events":[]}"#;
    let sig = signature(secret, body);
    assert!(verify_signature(secret, body, &sig));
}

#[test]
fn tampered_body_rejected() {
    let secret = "topsecret";
    let sig = signature(secret, b"original");
    assert!(!verify_signature(secret, b"tampered", &sig));
}

#[test]
fn bad_b64_rejected() {
    assert!(!verify_signature("k", b"x", "%%%not-base64%%%"));
}

#[test]
fn known_signature_is_accepted() {
    assert!(verify_signature(
        "key",
        b"The quick brown fox jumps over the lazy dog",
        "97yD9DBThCSxMpjmqm+xQ+9NWaFJRhdZl0edvC0aPNg="
    ));
    assert!(!verify_signature("key", b"x", ""));
}

#[test]
fn parse_text_event() {
    let raw = r#"{
        "events":[{
            "timestamp":1700000000000,
            "source":{"userId":"U1"},
            "message":{"type":"text","text":"hi"}
        }]
    }"#;
    let p = read_webhook(&read(raw)).unwrap();
    assert_eq!(p.events.len(), 1);
    let m = p.events[0].message.as_ref().unwrap();
    assert_eq!(m.kind, "text");
    assert_eq!(m.text.as_deref(), Some("hi"));
}

#[test]
fn parse_image_event_with_line_provider() {
    let raw = r#"{
        "events":[{
            "timestamp":1700000000000,
            "source":{"userId":"U1"},
            "message":{
                "type":"image",
                "id":"M1",
                "contentProvider":{"type":"line"}
            }
        }]
    }"#;
    let p = read_webhook(&read(raw)).unwrap();
    let m = p.events[0].message.as_ref().unwrap();
    assert_eq!(m.kind, "image");
    assert_eq!(m.id.as_deref(), Some("M1"));
    assert_eq!(m.content_provider.as_ref().map(|c| c.kind.as_str()), Some("line"));
}

#[test]
fn ext_from_mime_known_types() {
    assert_eq!(ext_from_mime("image/png"), ".png");
    assert_eq!(ext_from_mime("audio/mpeg"), ".mp3");
    assert_eq!(ext_from_mime("application/pdf"), "");
}

fn line_bot(allowlist: &[&str], push_limit: Option<u64>) -> LinePlatform {
    LinePlatform::new(
        LineConfig {
            channel_secret: "s".into(),
            channel_token: "t".into(),
            bind: "0.0.0.0:8080".into(),
            allowlist: allowlist.iter().map(|s| s.to_string()).collect(),
            push_limit,
        },
        1_000,
    )
}

fn call(p: &LinePlatform, body: &str) -> Webhook {
    p.handle_webhook(body.as_bytes(), &signature("s", body.as_bytes()))
}

fn event(user: &str, at: i64) -> String {
    format!(
        "{{\"timestamp\":{at},\"source\":{{\"userId\":\"{user}\"}},\"replyToken\":\"R\",\"message\":{{\"type\":\"text\",\"text\":\"hi\"}}}}"
    )
}

fn inbound(w: Webhook) -> Vec<Inbound> {
    match w {
        Webhook::Accepted(v) => v,
        other => panic!("{other:?}"),
    }
}

#[test]
fn unsigned_calls_are_refused() {
    let p = line_bot(&[], None);
    assert_eq!(p.name(), "line");
    assert_eq!(p.handle_webhook(b"{\"events\":[]}", "AAAA"), Webhook::Unauthorized);
    assert_eq!(call(&p, "not json"), Webhook::BadRequest);
    assert_eq!(call(&p, "{\"events\":[]}"), Webhook::Accepted(vec![]));
    assert_eq!(p.answer(false, Some(read("{\"events\":[]}"))), Webhook::Unauthorized);
    assert_eq!(p.answer(true, None), Webhook::BadRequest);
}

#[test]
fn only_fresh_messages_of_served_users() {
    let open = line_bot(&[], None);
    let body = format!("{{\"events\":[{},{}]}}", event("U1", 999), event("U2", 1_000));
    let taken = inbound(call(&open, &body));
    assert_eq!(taken.len(), 1);
    assert_eq!(taken[0].user, "U2");
    let closed = line_bot(&["U3"], None);
    assert!(inbound(call(&closed, &body)).is_empty());
    let served = line_bot(&["U2"], None);
    assert_eq!(inbound(call(&served, &body)).len(), 1);
}

#[test]
fn reply_token_is_used_in_time() {
    let mut p = line_bot(&[], Some(1));
    let body = format!("{{\"events\":[{}]}}", event("U1", 2_000));
    let taken = inbound(call(&p, &body));
    let m = ai_agent_bridge::line::to_message(&taken[0], "hi".into(), vec![], 5_000).unwrap();
    assert_eq!(m.key.0, "line:U1");
    assert_eq!(m.timestamp_ms, 2_000);
    assert_eq!(extract_reply_token(&m.reply_ctx.extra, 30_000).as_deref(), Some("R"));
    assert_eq!(extract_reply_token(&m.reply_ctx.extra, 30_001), None);
    assert_eq!(recipient(&m.reply_ctx), Ok("U1".to_string()));
    let batch = &reply_batches("yes")[0];
    assert_eq!(
        p.deliver(&m.reply_ctx, "U1", batch, 6_000),
        Delivery::Reply(reply_body("R", batch))
    );
    assert_eq!(
        p.deliver(&m.reply_ctx, "U1", batch, 60_000),
        Delivery::Push(push_body("U1", batch))
    );
    assert_eq!(
        p.after_call(true, Some("expired".into()), "U1", batch),
        Ok(Some(Delivery::Push(push_body("U1", batch))))
    );
    assert_eq!(p.after_call(true, None, "U1", batch), Ok(None));
    assert_eq!(p.push_count, 0);
    assert_eq!(p.after_call(false, Some("HTTP 500".into()), "U1", batch), Err("HTTP 500".into()));
    assert_eq!(p.push_count, 0);
    assert_eq!(p.after_call(false, None, "U1", batch), Ok(None));
    assert_eq!(p.push_count, 1);
    assert!(p.near_limit());
    assert_eq!(
        p.deliver(&m.reply_ctx, "U1", batch, 60_000),
        Delivery::Exhausted("LINE push message quota exhausted (1/1). Wait for monthly reset.".into())
    );
    assert_eq!(ai_agent_bridge::line::to_message(&taken[0], String::new(), vec![], 0), None);
    assert_eq!(
        recipient(&ReplyCtx::default()),
        Err("LINE reply requires user id in ReplyCtx".to_string())
    );
}

#[test]
fn pushes_are_unlimited_without_a_quota() {
    let mut p = line_bot(&[], None);
    p.count_push();
    assert!(!p.near_limit());
    let batch = &reply_batches("yes")[0];
    match p.push("U1", batch) {
        Delivery::Push(body) => assert_eq!(
            body.to_text(),
            r#"{"messages":[{"text":"yes","type":"text"}],"to":"U1"}"#
        ),
        other => panic!("{other:?}"),
    }
}

#[test]
fn batches_carry_everything() {
    let text = "a".repeat(30_000);
    let batches = reply_batches(&text);
    assert_eq!(batches.iter().map(|b| b.len()).collect::<Vec<_>>(), vec![5, 1]);
    let said: String = batches
        .iter()
        .flatten()
        .map(|m| m.get_text("text").unwrap())
        .collect();
    assert_eq!(said, text);
}

#[test]
fn line_content_is_text_or_a_file() {
    let message = |raw: &str| {
        let body = format!("{{\"events\":[{{\"timestamp\":1,\"source\":{{}},\"message\":{raw}}}]}}");
        read_webhook(&read(&body)).unwrap().events.remove(0).message.unwrap()
    };
    assert_eq!(
        content(&message(r#"{"type":"text","text":"hi"}"#)),
        Content::Text("hi".into())
    );
    assert_eq!(
        content(&message(r#"{"type":"audio","id":"M1"}"#)),
        Content::Fetch { id: "M1".into(), kind: AttachmentKind::Audio, file_name: None }
    );
    assert_eq!(
        content(&message(
            r#"{"type":"image","contentProvider":{"type":"external","originalContentUrl":"https://x"}}"#
        )),
        Content::Text("[external image attachment: https://x]".into())
    );
    assert_eq!(content(&message(r#"{"type":"sticker"}"#)), Content::Nothing);
    assert_eq!(content(&message(r#"{"type":"file"}"#)), Content::Nothing);
}

#[test]
fn line_downloads_are_named() {
    assert_eq!(content_url("M1"), "https://api-data.line.me/v2/bot/message/M1/content");
    assert_eq!(content_type(Some("image/png; charset=x")), "image/png");
    assert_eq!(content_type(None), "application/octet-stream");
    assert_eq!(download_name(&None, "M1", "image/png"), "M1.png");
    let name = download_name(&Some("../a b.pdf".into()), "M1", "application/pdf");
    assert!(!name.contains('/') && !name.starts_with('.'));
}

#[test]
fn line_attachments_are_links() {
    assert_eq!(
        attachment_message(&att(AttachmentKind::Image, None), "https://u").to_text(),
        r#"{"originalContentUrl":"https://u","previewImageUrl":"https://u","type":"image"}"#
    );
    assert_eq!(
        attachment_message(&att(AttachmentKind::Audio, None), "https://u").to_text(),
        r#"{"duration":1000,"originalContentUrl":"https://u","type":"audio"}"#
    );
    assert_eq!(
        attachment_message(&att(AttachmentKind::File, Some("r.pdf")), "https://u").to_text(),
        "{\"text\":\"📎 r.pdf\\nhttps://u\",\"type\":\"text\"}"
    );
    assert_eq!(
        unpublished_text(&att(AttachmentKind::File, None)),
        "[attachment /tmp/x — no publisher configured]"
    );
    let ctx = ReplyCtx { user: Some("U1".into()), ..Default::default() };
    assert_eq!(
        ai_agent_bridge::line::typing_body(&ctx).unwrap().to_text(),
        r#"{"chatId":"U1","loadingSeconds":20}"#
    );
    assert!(ai_agent_bridge::line::typing_body(&ReplyCtx::default()).is_err());
}

// ── Slack ───────────────────────────────────────────────────────────────

#[test]
fn parse_events_api_envelope() {
    let raw = r#"{
        "envelope_id": "e1",
        "type": "events_api",
        "payload": {
            "team_id": "T1",
            "event": {
                "type": "message",
                "channel": "C1",
                "user": "U1",
                "text": "hi",
                "ts": "1700000000.000100"
            }
        }
    }"#;
    let env = read_envelope(&read(raw)).unwrap();
    assert_eq!(env.kind, "events_api");
    let p = read_payload(&env.payload).unwrap();
    match p.event {
        SlackEvent::Message(m) => {
            assert_eq!(m.text, "hi");
            assert_eq!(m.channel.as_deref(), Some("C1"));
            assert!(!m.is_skippable());
        }
        _ => panic!("expected message"),
    }
}

#[test]
fn skips_bot_messages_and_edits() {
    let bot = MessageEvent {
        channel: Some("C".into()),
        user: None,
        text: "x".into(),
        ts: None,
        thread_ts: None,
        bot_id: Some("B1".into()),
        subtype: None,
        files: vec![],
    };
    assert!(bot.is_skippable());
    let edit = MessageEvent {
        channel: Some("C".into()),
        user: Some("U".into()),
        text: "x".into(),
        ts: None,
        thread_ts: None,
        bot_id: None,
        subtype: Some("message_changed".into()),
        files: vec![],
    };
    assert!(edit.is_skippable());
}

#[test]
fn parses_file_share() {
    let raw = r#"{
        "type": "message",
        "subtype": "file_share",
        "channel": "C1",
        "user": "U1",
        "text": "look",
        "files": [{
            "id": "F1",
            "name": "a.png",
            "mimetype": "image/png",
            "url_private_download": "https://files.slack.com/x",
            "size": 1234
        }]
    }"#;
    let m = read_message_event(&read(raw)).unwrap();
    assert!(!m.is_skippable());
    assert_eq!(m.files.len(), 1);
    assert_eq!(m.files[0].mimetype.as_deref(), Some("image/png"));
    let d = plan_download(&m.files[0]).unwrap();
    assert_eq!(d.url, "https://files.slack.com/x");
    assert_eq!(d.kind, AttachmentKind::Image);
    assert_eq!(d.name, "a.png");
}

#[test]
fn ignores_non_events_api_envelopes() {
    let raw = r#"{"type":"hello","num_connections":1}"#;
    let env = read_envelope(&read(raw)).unwrap();
    assert_eq!(env.kind, "hello");
    let got = receive(raw).unwrap();
    assert_eq!(got.ack, None);
    assert_eq!(got.message, None);
}

fn slack_event(channel: &str, text: &str) -> MessageEvent {
    MessageEvent {
        channel: Some(channel.into()),
        user: Some("U1".into()),
        text: text.into(),
        ts: Some("1700000000.000100".into()),
        thread_ts: None,
        bot_id: None,
        subtype: None,
        files: vec![],
    }
}

#[test]
fn envelopes_are_acknowledged() {
    let raw = r#"{"envelope_id":"e1","type":"interactive","payload":{}}"#;
    let got = receive(raw).unwrap();
    assert_eq!(got.ack.unwrap().to_text(), r#"{"envelope_id":"e1"}"#);
    assert_eq!(got.message, None);
    assert_eq!(receive("{"), None);
}

#[test]
fn channel_messages_need_a_mention() {
    let id = Some("B1".to_string());
    assert!(needs_identity(&slack_event("C1", "x")));
    assert!(!needs_identity(&slack_event("D1", "x")));
    assert_eq!(accept(&slack_event("C1", "hello"), &id), None);
    assert_eq!(accept(&slack_event("C1", "<@B1> hello"), &id).as_deref(), Some("hello"));
    assert_eq!(accept(&slack_event("C1", "<@B1>"), &id), None);
    assert_eq!(accept(&slack_event("C1", "<@B1> hello"), &None), None);
    assert_eq!(accept(&slack_event("D1", "hello"), &None).as_deref(), Some("hello"));
}

#[test]
fn slack_replies_stay_in_their_thread() {
    let m = slack::to_message(&slack_event("C1", "x"), "hello".into(), vec![]).unwrap();
    assert_eq!(m.key.0, "slack:C1/U1");
    assert_eq!(m.timestamp_ms, 1_700_000_000_000);
    assert_eq!(m.reply_ctx.thread.as_deref(), Some("1700000000.000100"));
    assert_eq!(
        slack::reply(&m.reply_ctx, "yes").unwrap().to_text(),
        r#"{"channel":"C1","text":"yes","thread_ts":"1700000000.000100"}"#
    );
    assert_eq!(
        slack::reply(&ReplyCtx::default(), "yes"),
        Err("Slack reply requires channel".to_string())
    );
}

#[test]
fn slack_answers_are_read() {
    assert_eq!(bot_identity(&read(r#"{"ok":true,"user_id":"B1"}"#)), Ok("B1".to_string()));
    assert_eq!(
        bot_identity(&read(r#"{"ok":true}"#)),
        Err("auth.test returned no user_id".to_string())
    );
    assert_eq!(
        bot_identity(&read(r#"{"ok":false,"error":"invalid_auth"}"#)),
        Err("auth.test failed: invalid_auth".to_string())
    );
    assert_eq!(
        socket_url(&read(r#"{"ok":true,"url":"wss://s"}"#)),
        Ok("wss://s".to_string())
    );
    assert_eq!(read_reply(&read("[]"), "url"), ApiReply::Malformed);
    assert_eq!(
        upload_target(&read(r#"{"ok":true,"upload_url":"u","file_id":"F"}"#)),
        Ok(("u".to_string(), "F".to_string()))
    );
    assert_eq!(
        upload_target(&read(r#"{"ok":true,"upload_url":"u"}"#)),
        Err("missing file_id".to_string())
    );
    assert_eq!(upload_completed(&read(r#"{"ok":true}"#)), None);
    assert_eq!(
        complete_body("F", "a.png", "C").to_text(),
        r#"{"channel_id":"C","files":[{"id":"F","title":"a.png"}]}"#
    );
}

#[test]
fn slack_waits_double_up_to_a_minute() {
    let mut b = Backoff::new();
    let waits: Vec<u64> = (0..8).map(|_| b.failed()).collect();
    assert_eq!(waits, vec![1, 2, 4, 8, 16, 32, 60, 60]);
    b.ended();
    assert_eq!(b.failed(), 1);
    let p = SlackPlatform::new(SlackConfig { app_token: "a".into(), bot_token: "b".into() });
    assert_eq!(p.name(), "slack");
}

// ── Standard streams ────────────────────────────────────────────────────

#[test]
fn lib_platform_name() {
    let p = StdioPlatform::new();
    assert_eq!(p.name(), "stdio");
    let p = TelegramPlatform::new(TelegramConfig { bot_token: "test".into() });
    assert_eq!(p.name(), "telegram");
}

#[test]
fn default_user_is_local() {
    let p = StdioPlatform::new();
    assert_eq!(p.user, "local");
}

#[test]
fn default_trait_impl() {
    let p = StdioPlatform::default();
    assert_eq!(p.user, "local");
}

#[test]
fn lines_become_messages() {
    let p = StdioPlatform::new();
    let m = p.message("hello");
    assert_eq!(m.key.0, "stdio:local");
    assert_eq!(m.text, "hello");
    assert_eq!(m.timestamp_ms, 0);
    assert_eq!(
        p.attachment_line(&att(AttachmentKind::File, Some("test.txt"))),
        "[attachment: /tmp/x]"
    );
}

// ── Telegram ────────────────────────────────────────────────────────────

#[test]
fn api_response_ok_parses() {
    let json = r#"{"ok":true,"result":[{"update_id":1}]}"#;
    let resp = read_response(&read(json)).unwrap();
    assert!(resp.ok);
    assert_eq!(resp.result.unwrap().len(), 1);
}

#[test]
fn api_response_error_parses() {
    let json = r#"{"ok":false,"description":"Unauthorized"}"#;
    let resp = read_response(&read(json)).unwrap();
    assert!(!resp.ok);
    assert_eq!(resp.description.as_deref(), Some("Unauthorized"));
}

#[test]
fn update_with_text_message_parses() {
    let json = r#"{
        "update_id": 100,
        "message": {
            "message_id": 42,
            "from": {"id": 12345},
            "chat": {"id": 67890},
            "date": 1700000000,
            "text": "hello world"
        }
    }"#;
    let update = read_update(&read(json)).unwrap();
    assert_eq!(update.update_id, 100);
    let m = telegram::to_message(&update).unwrap();
    assert_eq!(m.key.0, "telegram:67890/12345");
    assert_eq!(m.timestamp_ms, 1_700_000_000_000);
    let msg = update.message.unwrap();
    assert_eq!(msg.text.as_deref(), Some("hello world"));
    assert_eq!(msg.chat.id, 67890);
    assert_eq!(msg.from.unwrap().id, 12345);
    assert_eq!(msg.date, Some(1700000000));
}

#[test]
fn update_without_message_parses() {
    let json = r#"{"update_id": 101}"#;
    let update = read_update(&read(json)).unwrap();
    assert!(update.message.is_none());
}

#[test]
fn update_without_text_parses() {
    let json = r#"{
        "update_id": 102,
        "message": {
            "chat": {"id": 1},
            "date": 1700000000
        }
    }"#;
    let update = read_update(&read(json)).unwrap();
    assert_eq!(telegram::to_message(&update), None);
    let msg = update.message.unwrap();
    assert!(msg.text.is_none());
    assert!(msg.from.is_none());
}

#[test]
fn api_url_format() {
    let p = TelegramPlatform::new(TelegramConfig { bot_token: "123:ABC".into() });
    assert_eq!(
        p.api_url("sendMessage"),
        "https://api.telegram.org/bot123:ABC/sendMessage"
    );
}

#[test]
fn updates_are_taken_once() {
    let mut p = TelegramPlatform::new(TelegramConfig { bot_token: "t".into() });
    assert_eq!(
        p.poll_body().to_text(),
        r#"{"allowed_updates":["message"],"offset":0,"timeout":30}"#
    );
    let got = read_response(&read(
        r#"{"ok":true,"result":[{"update_id":7},{"update_id":9}]}"#,
    ))
    .unwrap();
    assert_eq!(p.take_response(got).unwrap().len(), 2);
    assert_eq!(p.offset, 10);
    let refused = read_response(&read(r#"{"ok":false,"description":"Unauthorized"}"#)).unwrap();
    assert_eq!(
        p.take_response(refused),
        Err("Telegram getUpdates not ok: Unauthorized".to_string())
    );
    assert_eq!(p.offset, 10);
}

#[test]
fn telegram_replies_reach_their_chat() {
    let ctx = ReplyCtx {
        channel: Some("67890".into()),
        thread: Some("42".into()),
        ..Default::default()
    };
    assert_eq!(
        texts(&telegram::reply(&ctx, "yes").unwrap()),
        vec![r#"{"chat_id":"67890","reply_to_message_id":42,"text":"yes"}"#.to_string()]
    );
    assert_eq!(telegram::reply(&ctx, &"a".repeat(5_000)).unwrap().len(), 2);
    assert_eq!(
        telegram::reply(&ReplyCtx::default(), "x"),
        Err("Telegram reply requires chat_id in channel".to_string())
    );
    assert_eq!(
        telegram::typing_body(&ctx).unwrap().to_text(),
        r#"{"action":"typing","chat_id":"67890"}"#
    );
    assert_eq!(upload_method(AttachmentKind::Image), ("sendPhoto", "photo"));
    assert_eq!(upload_method(AttachmentKind::Audio), ("sendAudio", "audio"));
    assert_eq!(upload_method(AttachmentKind::File), ("sendDocument", "document"));
}

// ── Fields in a list ────────────────────────────────────────────────────

#[test]
fn platform_structs_are_read_from_lists() {
    let r = read_response(&read(r#"[true,[[5,[42,[7],[9],null,"hi"]]],null]"#)).unwrap();
    let update = &r.result.as_ref().unwrap()[0];
    assert_eq!(update.update_id, 5);
    let m = update.message.as_ref().unwrap();
    assert_eq!((m.chat.id, m.text.as_deref()), (9, Some("hi")));
    assert!(read_response(&read("[true,null]")).is_none());

    let p = read_webhook(&read(r#"[[[1,["U1"],["text","hi"]]]]"#)).unwrap();
    assert_eq!(p.events[0].user_id.as_deref(), Some("U1"));
    assert_eq!(p.events[0].message.as_ref().unwrap().text.as_deref(), Some("hi"));
    assert!(read_webhook(&read(r#"[[[1,["U1"],["text"]]]]"#)).is_none());

    let e = read_envelope(&read(r#"["e1","events_api"]"#)).unwrap();
    assert_eq!((e.envelope_id.as_deref(), e.kind.as_str()), (Some("e1"), "events_api"));
    let raw = r#"[null,["message","C1","U1","hi",null,null,null,null]]"#;
    match read_payload(&read(raw)).unwrap().event {
        SlackEvent::Message(m) => assert_eq!(m.text, "hi"),
        other => panic!("{other:?}"),
    }
    assert_eq!(read_payload(&read(r#"[null,["app_mention"]]"#)).unwrap().event, SlackEvent::Other);
    assert!(read_payload(&read(r#"[null,["app_mention",1]]"#)).is_none());
    assert_eq!(read_reply(&read(r#"[true,"wss://x",null]"#), "url"), ApiReply::Value("wss://x".into()));
    assert_eq!(
        read_reply(&read(r#"[true,null,"u","f"]"#), "file_id"),
        ApiReply::Value("f".into())
    );

    let d = discord::read_payload(&read(r#"[10,null,3,null]"#)).unwrap();
    assert_eq!((d.op, d.s), (10, Some(3)));
    assert!(discord::read_payload(&read("[10,null,3]")).is_none());
}
