//! The state database and the session registry.

use ai_agent_bridge::registry::{Outcome, RegistryEntry, SessionRegistry};
use ai_agent_bridge::schedule::{ScheduleEntry, ScheduleKind};
use ai_agent_bridge::store::{
    entry_from_row, removed, schedule_from_item, schedules_from, schedules_read, schema_step,
    session_read, sessions_from, sessions_read, written, SchemaStep, StateDb, StoreError,
};
use ai_agent_bridge::types::{now_ms, ReplyCtx, SessionKey};

fn memory() -> StateDb {
    StateDb::in_memory().ok().unwrap()
}

fn registry() -> SessionRegistry {
    SessionRegistry::in_memory().ok().unwrap()
}

fn open(path: &std::path::Path) -> StateDb {
    let conn = rusqlite::Connection::open(path).unwrap();
    StateDb::with_connection(conn).ok().unwrap()
}

#[test]
fn session_crud() {
    let mut db = memory();
    let key = SessionKey::new("line", "U1");

    assert!(db.get_session(&key).is_none());

    let entry = RegistryEntry {
        agent: "agent".into(),
        active_session_id: Some("sess-1".into()),
        past_agent_session_ids: vec![],
    };
    assert!(db.upsert_session(&key, &entry).is_ok());

    let got = db.get_session(&key).unwrap();
    assert_eq!(got.agent, "agent");
    assert_eq!(got.active_session_id.as_deref(), Some("sess-1"));

    let all = db.all_sessions();
    assert_eq!(all.len(), 1);

    assert!(db.remove_session(&key).is_ok());
    assert!(db.get_session(&key).is_none());
}

#[test]
fn session_upsert_overwrites() {
    let mut db = memory();
    let key = SessionKey::new("line", "U1");

    let e1 = RegistryEntry {
        agent: "agent".into(),
        active_session_id: Some("s1".into()),
        past_agent_session_ids: vec![],
    };
    assert!(db.upsert_session(&key, &e1).is_ok());

    let e2 = RegistryEntry {
        agent: "copilot".into(),
        active_session_id: Some("s2".into()),
        past_agent_session_ids: vec![("agent".into(), "s1".into())],
    };
    assert!(db.upsert_session(&key, &e2).is_ok());

    let got = db.get_session(&key).unwrap();
    assert_eq!(got.agent, "copilot");
    assert_eq!(got.past_agent_session_ids.len(), 1);
    assert_eq!(got.past_agent_session_ids[0], ("agent".to_string(), "s1".to_string()));
}

fn make_schedule_entry(id: &str, key: &SessionKey, prompt: &str) -> ScheduleEntry {
    ScheduleEntry {
        id: id.into(),
        key: key.clone(),
        prompt: prompt.into(),
        reply_ctx: ReplyCtx::default(),
        schedule: ScheduleKind::Recurring {
            interval_ms: 3_600_000,
            next_fire_ms: now_ms() + 3_600_000,
        },
        created_at_ms: now_ms(),
        last_fired_ms: None,
    }
}

fn add(db: &mut StateDb, id: &str, key: &SessionKey, prompt: &str) {
    assert!(db.add_schedule(&make_schedule_entry(id, key, prompt)).is_ok());
}

#[test]
fn schedule_crud() {
    let mut db = memory();
    let key = SessionKey::new("t", "u1");

    add(&mut db, "s1", &key, "hello");
    add(&mut db, "s2", &key, "world");

    assert_eq!(db.list_schedules(&key).len(), 2);
    assert_eq!(db.list_all_schedules().len(), 2);

    assert!(matches!(db.remove_schedule(&key, "s1"), Ok(true)));
    assert_eq!(db.list_schedules(&key).len(), 1);

    assert!(matches!(db.remove_schedule(&key, "nonexistent"), Ok(false)));
}

#[test]
fn schedule_list_filters_by_key() {
    let mut db = memory();
    let k1 = SessionKey::new("t", "u1");
    let k2 = SessionKey::new("t", "u2");

    add(&mut db, "s1", &k1, "one");
    add(&mut db, "s2", &k2, "two");

    assert_eq!(db.list_schedules(&k1).len(), 1);
    assert_eq!(db.list_schedules(&k2).len(), 1);
    assert_eq!(db.list_all_schedules().len(), 2);
}

#[test]
fn schedule_update_fired() {
    let mut db = memory();
    let key = SessionKey::new("t", "u1");
    add(&mut db, "s1", &key, "test");

    let new_kind = ScheduleKind::Recurring {
        interval_ms: 3_600_000,
        next_fire_ms: now_ms() + 7_200_000,
    };
    assert!(db.update_schedule_fired("s1", now_ms(), &new_kind).is_ok());

    let list = db.list_schedules(&key);
    assert_eq!(list.len(), 1);
    assert!(list[0].last_fired_ms.is_some());
    assert_eq!(list[0].schedule, new_kind);
}

#[test]
fn schedule_remove_batch() {
    let mut db = memory();
    let key = SessionKey::new("t", "u1");
    add(&mut db, "s1", &key, "one");
    add(&mut db, "s2", &key, "two");
    add(&mut db, "s3", &key, "three");

    assert!(db.remove_schedules_by_ids(&["s1".into(), "s3".into()]).is_ok());
    let remaining = db.list_all_schedules();
    assert_eq!(remaining.len(), 1);
    assert_eq!(remaining[0].id, "s2");
}

#[test]
fn open_creates_file_and_schema() {
    let dir = tempfile::tempdir().unwrap();
    let path = dir.path().join("test.db");

    let mut db = open(&path);
    let key = SessionKey::new("test", "u1");
    let entry = RegistryEntry {
        agent: "agent".into(),
        active_session_id: Some("s1".into()),
        past_agent_session_ids: vec![],
    };
    assert!(db.upsert_session(&key, &entry).is_ok());
    drop(db);

    let db2 = open(&path);
    let got = db2.get_session(&key).unwrap();
    assert_eq!(got.agent, "agent");
}

#[test]
fn schemas_of_later_versions_are_refused() {
    let dir = tempfile::tempdir().unwrap();
    let path = dir.path().join("later.db");
    let conn = rusqlite::Connection::open(&path).unwrap();
    conn.pragma_update(None, "user_version", 99).unwrap();
    match StateDb::with_connection(conn) {
        Err(StoreError::TooNew { found }) => assert_eq!(found, 99),
        _ => panic!("opened a later version"),
    }
    assert!(matches!(schema_step(99), SchemaStep::Refuse));
    assert!(matches!(schema_step(0), SchemaStep::Create));
    assert!(matches!(schema_step(1), SchemaStep::Ready));
}

#[test]
fn store_errors_have_messages() {
    let dir = tempfile::tempdir().unwrap();
    let path = dir.path().join("ro.db");
    drop(open(&path));
    let conn = rusqlite::Connection::open_with_flags(
        &path,
        rusqlite::OpenFlags::SQLITE_OPEN_READ_ONLY,
    )
    .unwrap();
    let mut db = match StateDb::with_connection(conn) {
        Ok(db) => db,
        Err(e) => {
            assert!(!e.message().is_empty());
            return;
        }
    };
    let err: StoreError = match db.remove_session(&SessionKey::new("t", "u")) {
        Err(e) => e,
        Ok(()) => panic!("wrote to a read-only file"),
    };
    assert!(!err.message().is_empty());
}

#[test]
fn round_trip_persistence() {
    let dir = tempfile::tempdir().unwrap();
    let path = dir.path().join("state.db");
    let mut reg = SessionRegistry::new(open(&path));
    let k = SessionKey::new("line", "U1");
    reg.record_session(k.clone(), "agent".into(), "sess-1".into());

    drop(reg);

    let reg2 = SessionRegistry::new(open(&path));
    assert_eq!(reg2.agent_for(&k).as_deref(), Some("agent"));
    assert_eq!(reg2.last_session_id(&k).as_deref(), Some("sess-1"));
}

#[test]
fn switch_agent_pushes_history() {
    let mut reg = registry();
    let k = SessionKey::new("line", "U1");
    reg.record_session(k.clone(), "agent".into(), "s1".into());
    reg.record_session(k.clone(), "copilot".into(), "s2".into());
    let entry = reg.get_session(&k).unwrap();
    assert_eq!(entry.agent, "copilot");
    assert_eq!(entry.active_session_id.as_deref(), Some("s2"));
    assert_eq!(entry.past_agent_session_ids.len(), 1);
    assert_eq!(entry.past_agent_session_ids[0].0, "agent");
}

#[test]
fn clear_active_archives() {
    let mut reg = registry();
    let k = SessionKey::new("slack", "U2");
    reg.record_session(k.clone(), "agent".into(), "s1".into());
    reg.clear_active(&k);
    let e = reg.get_session(&k).unwrap();
    assert!(e.active_session_id.is_none());
    assert_eq!(e.past_agent_session_ids.len(), 1);
}

#[test]
fn clear_all_removes_entry() {
    let mut reg = registry();
    let k = SessionKey::new("line", "U3");
    reg.record_session(k.clone(), "agent".into(), "s1".into());
    reg.record_session(k.clone(), "copilot".into(), "s2".into());
    assert!(reg.get_session(&k).is_some());
    reg.clear_all(&k);
    assert!(reg.get_session(&k).is_none());
    assert!(reg.agent_for(&k).is_none());
    assert!(reg.last_session_id(&k).is_none());
}

#[test]
fn set_agent_same_agent_noop() {
    let mut reg = registry();
    let k = SessionKey::new("line", "U1");
    reg.record_session(k.clone(), "agent".into(), "s1".into());
    reg.set_agent(k.clone(), "agent".into());
    let e = reg.get_session(&k).unwrap();
    assert_eq!(e.agent, "agent");
    assert_eq!(e.active_session_id.as_deref(), Some("s1"));
    assert!(e.past_agent_session_ids.is_empty());
}

#[test]
fn set_agent_different_agent_archives_previous() {
    let mut reg = registry();
    let k = SessionKey::new("line", "U1");
    reg.record_session(k.clone(), "agent".into(), "s1".into());
    reg.set_agent(k.clone(), "copilot".into());
    let e = reg.get_session(&k).unwrap();
    assert_eq!(e.agent, "copilot");
    assert!(e.active_session_id.is_none());
    assert_eq!(e.past_agent_session_ids.len(), 1);
    assert_eq!(e.past_agent_session_ids[0], ("agent".into(), "s1".into()));
}

#[test]
fn record_session_same_id_no_duplicate_history() {
    let mut reg = registry();
    let k = SessionKey::new("line", "U1");
    reg.record_session(k.clone(), "agent".into(), "s1".into());
    reg.record_session(k.clone(), "agent".into(), "s1".into());
    let e = reg.get_session(&k).unwrap();
    assert!(e.past_agent_session_ids.is_empty());
}

#[test]
fn entries_returns_all() {
    let mut reg = registry();
    let k1 = SessionKey::new("line", "U1");
    let k2 = SessionKey::new("slack", "U2");
    reg.record_session(k1, "agent".into(), "s1".into());
    reg.record_session(k2, "copilot".into(), "s2".into());
    let all = reg.entries();
    assert_eq!(all.len(), 2);
}

#[test]
fn finished_turn_keeps_the_agent() {
    let mut reg = registry();
    let k = SessionKey::new("line", "U1");
    assert_eq!(reg.finish_turn(&k, "s0".into()), Outcome { read: true, stored: false });
    reg.record_session(k.clone(), "agent".into(), "s1".into());
    assert_eq!(reg.finish_turn(&k, "s2".into()), Outcome { read: true, stored: true });
    let e = reg.get_session(&k).unwrap();
    assert_eq!(e.agent, "agent");
    assert_eq!(e.active_session_id.as_deref(), Some("s2"));
    assert_eq!(e.past_agent_session_ids, vec![("agent".to_string(), "s1".to_string())]);
}

#[test]
fn scheduler_remove_wrong_key() {
    let mut db = memory();
    let k1 = SessionKey::new("t", "u1");
    let k2 = SessionKey::new("t", "u2");
    add(&mut db, "s1", &k1, "hello");
    assert!(matches!(db.remove_schedule(&k2, "s1"), Ok(false)));
    assert_eq!(db.list_all_schedules().len(), 1);
}

#[test]
fn rows_become_entries() {
    let e = entry_from_row("echo".into(), Some("s1".into()), r#"[["echo","s0"]]"#);
    assert_eq!(e.agent, "echo");
    assert_eq!(e.active_session_id.as_deref(), Some("s1"));
    assert_eq!(e.past_agent_session_ids, vec![("echo".to_string(), "s0".to_string())]);
    let torn = entry_from_row("echo".into(), None, "not json");
    assert!(torn.past_agent_session_ids.is_empty());
}

#[test]
fn unreadable_rows_are_left_out_and_counted() {
    let items = vec![
        Ok(("line:U1".to_string(), "a".to_string(), None, "[]".to_string())),
        Err(rusqlite::Error::QueryReturnedNoRows),
        Ok(("line:U2".to_string(), "b".to_string(), Some("s".to_string()), "[]".to_string())),
    ];
    let l = sessions_from(&items);
    assert_eq!(l.unreadable, 1);
    let keys: Vec<&str> = l.entries.iter().map(|(k, _)| k.0.as_str()).collect();
    assert_eq!(keys, vec!["line:U1", "line:U2"]);
}

fn row(
    id: &str,
    kind: &str,
) -> (String, String, String, String, String, i64, Option<i64>) {
    let ctx = r#"{"thread":null,"channel":null,"extra":null}"#;
    (id.into(), "line:U1".into(), "hi".into(), ctx.into(), kind.into(), 5, None)
}

#[test]
fn rows_that_are_no_schedule_are_left_out() {
    let good = r#"{"kind":"once","fire_at_ms":9}"#;
    let parsed = schedule_from_item(&row("a", good)).unwrap();
    assert_eq!(parsed.schedule, ScheduleKind::Once { fire_at_ms: 9 });
    assert!(schedule_from_item(&row("b", "{}")).is_none());

    let items = vec![
        Ok(row("a", good)),
        Ok(row("b", "{}")),
        Err(rusqlite::Error::QueryReturnedNoRows),
        Ok(row("c", good)),
    ];
    let l = schedules_from(&items);
    assert_eq!(l.unreadable, 1);
    let ids: Vec<&str> = l.entries.iter().map(|e| e.id.as_str()).collect();
    assert_eq!(ids, vec!["a", "c"]);
}

#[test]
fn replies_of_the_database_are_told_apart() {
    let refused = || rusqlite::Error::InvalidQuery;
    let row = ("echo".to_string(), Some("s1".to_string()), "[]".to_string());
    let read = session_read(Ok(Some(row))).ok().unwrap().unwrap();
    assert_eq!(read.active_session_id.as_deref(), Some("s1"));
    assert!(matches!(session_read(Ok(None)), Ok(None)));
    assert!(matches!(session_read(Err(refused())), Err(StoreError::Sql(_))));
    assert!(matches!(sessions_read(Ok(vec![])), Ok(l) if l.entries.is_empty() && l.unreadable == 0));
    assert!(matches!(sessions_read(Err(refused())), Err(StoreError::Sql(_))));
    assert!(matches!(schedules_read(Err(refused())), Err(StoreError::Sql(_))));
    assert_eq!(written(Ok(0)), Ok(()));
    assert!(matches!(written(Err(refused())), Err(StoreError::Sql(_))));
    assert_eq!(removed(Ok(1)), Ok(true));
    assert_eq!(removed(Ok(0)), Ok(false));
    assert!(matches!(removed(Err(refused())), Err(StoreError::Sql(_))));
}

#[test]
fn versions_decide_how_a_database_is_opened() {
    let conn = || rusqlite::Connection::open_in_memory().unwrap();
    assert!(StateDb::with_version(conn(), 0).ok().unwrap().all_sessions().is_empty());
    assert!(StateDb::with_version(conn(), 1).is_ok());
    assert!(matches!(
        StateDb::with_version(conn(), 7),
        Err(StoreError::TooNew { found: 7 })
    ));
}

#[test]
fn nothing_is_asked_for_no_ids() {
    // Without tables every change fails, so one that succeeds was not asked for.
    let bare = rusqlite::Connection::open_in_memory().unwrap();
    let mut db = StateDb::with_version(bare, 1).ok().unwrap();
    assert!(db.remove_schedules_by_ids(&[]).is_ok());
    assert!(matches!(db.remove_schedules_by_ids(&["a".to_string()]), Err(StoreError::Sql(_))));
    assert!(matches!(db.find_session(&SessionKey::new("line", "U1")), Err(StoreError::Sql(_))));
}

#[test]
fn what_was_read_decides_what_is_stored() {
    let mut reg = registry();
    let key = SessionKey::new("line", "U1");
    assert!(!reg.archive_read(&key, None));
    assert!(!reg.finish_read(&key, None, "s9".into()));
    assert!(reg.get_session(&key).is_none());
    assert!(reg.record_read(&key, None, "echo".into(), "s1".into()));
    let read = reg.get_session(&key);
    assert!(reg.assign_read(&key, read, "shell".into()));
    let e = reg.get_session(&key).unwrap();
    assert_eq!(e.agent, "shell");
    assert_eq!(e.active_session_id, None);
    assert_eq!(e.past_agent_session_ids, vec![("echo".to_string(), "s1".to_string())]);
    assert!(reg.finish_read(&key, Some(e), "s2".into()));
    let read = reg.get_session(&key);
    assert!(reg.archive_read(&key, read));
    let e = reg.get_session(&key).unwrap();
    assert_eq!(e.past_agent_session_ids.last().unwrap(), &("shell".to_string(), "s2".to_string()));
}

#[test]
fn archiving_twice_is_archiving_once() {
    let mut reg = registry();
    let done = Outcome { read: true, stored: true };
    let k = SessionKey::new("slack", "U9");
    assert_eq!(reg.clear_active(&k), Outcome { read: true, stored: false });
    assert_eq!(reg.get_session(&k), None);
    assert_eq!(reg.record_session(k.clone(), "agent".into(), "s1".into()), done);
    assert_eq!(reg.clear_active(&k), done);
    let once = reg.get_session(&k);
    assert_eq!(reg.clear_active(&k), done);
    assert_eq!(reg.get_session(&k), once);
    assert_eq!(reg.look_up(&k), (once, true));
}
