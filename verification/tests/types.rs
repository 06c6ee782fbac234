//! Identities, filenames and events.

use ai_agent_bridge::codec::{event_of_json, event_to_json, permission_of_json, permission_to_json};
use ai_agent_bridge::json::{Json, Members};
use ai_agent_bridge::types::{
    clock_in_range, now_ms, safe_filename, temp_name_ok, Attachment, AttachmentKind, Event,
    PermissionRequest, SessionKey,
};

#[test]
fn session_key_namespacing() {
    let k = SessionKey::new("line", "U1234");
    assert_eq!(k.0, "line:U1234");
    assert_eq!(k.platform(), Some("line".to_string()));
}

#[test]
fn key_without_platform_has_none() {
    assert_eq!(SessionKey("plain".to_string()).platform(), None);
    assert_eq!(SessionKey::new("slack", "C1:x/U1").platform(), Some("slack".to_string()));
}

#[test]
fn event_round_trip_serde() {
    let evt = Event::AssistantText { text: "hi".into(), partial: false };
    let json = event_to_json(&evt).unwrap().to_text();
    assert!(json.contains("\"type\":\"assistant_text\""));
    let back = event_of_json(&Json::of_text(&json).unwrap()).unwrap();
    match back {
        Event::AssistantText { text, partial } => {
            assert_eq!(text, "hi");
            assert!(!partial);
        }
        _ => panic!("variant mismatch"),
    }
}

#[test]
fn permission_request_serde() {
    let pr = PermissionRequest {
        id: "p1".into(),
        tool_name: "Bash".into(),
        description: "rm -rf /".into(),
        input: Members::new().with_str("cmd", "rm").object(),
    };
    let s = permission_to_json(&pr).to_text();
    let back = permission_of_json(&Json::of_text(&s).unwrap()).unwrap();
    assert_eq!(back.tool_name, "Bash");
    assert_eq!(back, pr);
}

#[test]
fn every_event_but_an_error_reads_back() {
    let att = Attachment {
        kind: AttachmentKind::Audio,
        path: "/tmp/a.mp3".into(),
        mime: "audio/mpeg".into(),
        bytes: Some(18_446_744_073_709_551_615),
        name: None,
    };
    let permission = PermissionRequest {
        id: "p".into(),
        tool_name: "t".into(),
        description: "d".into(),
        input: Json::Null,
    };
    let events = vec![
        Event::AssistantText { text: "a\nb".into(), partial: true },
        Event::AssistantAttachment(att),
        Event::PermissionRequest(permission),
        Event::ToolStart { name: "Read".into(), id: "1".into() },
        Event::ToolEnd { id: "1".into(), ok: false },
        Event::Done { session_id: "s".into() },
    ];
    for e in &events {
        let text = event_to_json(e).unwrap().to_text();
        assert_eq!(event_of_json(&Json::of_text(&text).unwrap()).as_ref(), Some(e));
    }
    assert_eq!(event_to_json(&Event::Error("boom".into())), None);
    assert_eq!(event_of_json(&Json::of_text("{\"type\":\"other\"}").unwrap()), None);
}

#[test]
fn safe_filename_strips_traversal() {
    assert_eq!(safe_filename("../../etc/passwd"), "passwd");
    assert_eq!(safe_filename("/etc/passwd"), "passwd");
    assert_eq!(safe_filename("..\\..\\windows\\evil.exe"), "evil.exe");
    assert_eq!(safe_filename("C:\\Windows\\System32\\cmd.exe"), "cmd.exe");
}

#[test]
fn safe_filename_drops_leading_dots_and_empties() {
    assert_eq!(safe_filename(".."), "file");
    assert_eq!(safe_filename("."), "file");
    assert_eq!(safe_filename(""), "file");
    assert_eq!(safe_filename("/"), "file");
    assert_eq!(safe_filename("...bashrc"), "bashrc");
}

#[test]
fn safe_filename_strips_control_chars_and_nul() {
    assert_eq!(safe_filename("a\0b"), "ab");
    assert_eq!(safe_filename("foo\nbar"), "foobar");
    assert_eq!(safe_filename("ok.png"), "ok.png");
}

#[test]
fn safe_filename_caps_length() {
    let huge = "a".repeat(5000);
    let out = safe_filename(&huge);
    assert!(out.len() <= 200);
    assert!(out.chars().all(|c| c == 'a'));
}

#[test]
fn write_temp_file_rejects_separators() {
    assert!(!temp_name_ok("a/b"));
    assert!(!temp_name_ok("a\\b"));
    assert!(!temp_name_ok("a\0b"));
    assert!(!temp_name_ok(""));
    assert!(temp_name_ok("ok.png"));
}

#[test]
fn safe_names_can_be_written() {
    for raw in ["../x", ".hidden", "a b.txt", "\u{1}\u{2}", "正.png", "C:\\a\\..\\"] {
        assert!(temp_name_ok(&safe_filename(raw)), "{raw:?}");
    }
}

#[test]
fn clock_readings_stay_in_range() {
    assert_eq!(clock_in_range(None), 0);
    assert_eq!(clock_in_range(Some(1_700_000_000_123)), 1_700_000_000_123);
    assert!(clock_in_range(Some(u128::MAX)) >= 0);
    assert!(now_ms() > 1_600_000_000_000);
}
