//! The state store: conversations and schedules in a SQLite database. Each
//! change is written at once.
//!
//! The contracts speak of what the database holds. They promise it for a
//! connection that nobody else writes through, which `StateDb::in_memory`
//! opens; a database file may be changed by another process at any time. Of
//! any connection they say which changes were asked for.

use vstd::prelude::*;
use vstd::string::*;

use crate::codec;
use crate::json;
use crate::registry::RegistryEntry;
use crate::registry;
use crate::schedule;
use crate::schedule::{ScheduleEntry, ScheduleKind};
use crate::text;
use crate::types;
use crate::types::SessionKey;

verus! {

/// The schema that this store reads and writes.
pub const SCHEMA_VERSION: u32 = 1;

// ── The database ────────────────────────────────────────────────────────

/// Declares `rusqlite::Connection`.
#[verifier::external_type_specification]
#[verifier::external_body]
pub struct ExConnection(rusqlite::Connection);

/// Declares `rusqlite::Error`.
#[verifier::external_type_specification]
#[verifier::external_body]
pub struct ExSqlError(rusqlite::Error);

/// Declares `serde_json::Error`.
#[verifier::external_type_specification]
#[verifier::external_body]
pub struct ExJsonError(serde_json::Error);

/// A row of the table of conversations: agent, active session id, history.
pub type SessionRow = (Seq<char>, Option<Seq<char>>, Seq<char>);

/// A row of the table of schedules: conversation, prompt, reply context,
/// schedule, time of creation, time of the last firing.
pub type ScheduleRow = (Seq<char>, Seq<char>, Seq<char>, Seq<char>, i64, Option<i64>);

/// The table of conversations, by key.
pub uninterp spec fn session_rows(c: rusqlite::Connection) -> Map<
    Seq<char>,
    (Seq<char>, Option<Seq<char>>, Seq<char>),
>;

/// The table of schedules, by id.
pub uninterp spec fn schedule_rows(c: rusqlite::Connection) -> Map<
    Seq<char>,
    (Seq<char>, Seq<char>, Seq<char>, Seq<char>, i64, Option<i64>),
>;

/// A change that is asked of the database.
pub enum Request {
    CreateTables,
    PutSession { key: Seq<char>, session: (Seq<char>, Option<Seq<char>>, Seq<char>) },
    DropSession { key: Seq<char> },
    AddSchedule {
        id: Seq<char>,
        schedule: (Seq<char>, Seq<char>, Seq<char>, Seq<char>, i64, Option<i64>),
    },
    DropSchedule { key: Seq<char>, id: Seq<char> },
    MoveSchedule { id: Seq<char>, fired: i64, kind: Seq<char> },
    DropSchedules { ids: Seq<Seq<char>> },
}

/// The changes that were asked of the database through this connection, in
/// order, whether or not they were done. It is a record of the calls, which
/// contracts need: of a database file that others write to, what was asked is
/// all that can be said.
pub uninterp spec fn asked(c: rusqlite::Connection) -> Seq<Request>;

/// The database is reached through this connection alone.
pub uninterp spec fn sole(c: rusqlite::Connection) -> bool;

/// A database of its own without rows.
pub open spec fn is_new(c: rusqlite::Connection) -> bool {
    sole(c) && session_rows(c) == Map::<Seq<char>, SessionRow>::empty() && schedule_rows(c)
        == Map::<Seq<char>, ScheduleRow>::empty()
}

/// From `a` to `b` nothing changed.
pub open spec fn kept(a: rusqlite::Connection, b: rusqlite::Connection) -> bool {
    sole(a) ==> sole(b) && session_rows(b) == session_rows(a) && schedule_rows(b) == schedule_rows(a)
}

/// From `a` to `b` the table of conversations became `m` where `done`, and
/// nothing else changed.
pub open spec fn sessions_became(
    a: rusqlite::Connection,
    b: rusqlite::Connection,
    done: bool,
    m: Map<Seq<char>, SessionRow>,
) -> bool {
    sole(a) ==> sole(b) && schedule_rows(b) == schedule_rows(a) && session_rows(b) == (if done {
        m
    } else {
        session_rows(a)
    })
}

/// From `a` to `b` the table of schedules became `m` where `done`, and nothing
/// else changed.
pub open spec fn schedules_became(
    a: rusqlite::Connection,
    b: rusqlite::Connection,
    done: bool,
    m: Map<Seq<char>, ScheduleRow>,
) -> bool {
    sole(a) ==> sole(b) && session_rows(b) == session_rows(a) && schedule_rows(b) == (if done {
        m
    } else {
        schedule_rows(a)
    })
}

/// `rusqlite::Connection::open_in_memory`: a new database without rows, which
/// only this connection reaches and of which nothing was asked yet.
#[verifier::external_body]
fn connect_memory() -> (r: Result<rusqlite::Connection, rusqlite::Error>)
    ensures
        r matches Ok(c) ==> is_new(c) && asked(c) == Seq::<Request>::empty(),
{
    rusqlite::Connection::open_in_memory()
}

/// `rusqlite::Connection::pragma_query_value` of `user_version`. Nothing is
/// promised of the number: it is what the file says.
#[verifier::external_body]
fn schema_version(conn: &rusqlite::Connection) -> (r: Result<u32, rusqlite::Error>) {
    conn.pragma_query_value(None, "user_version", |row| row.get(0))
}

/// `rusqlite::Connection::execute_batch` of statements that create the tables
/// where they are missing; rows stay as they are.
#[verifier::external_body]
fn create_tables(conn: &mut rusqlite::Connection) -> (r: Result<(), rusqlite::Error>)
    ensures
        kept(*old(conn), *final(conn)),
        asked(*final(conn)) == asked(*old(conn)).push(Request::CreateTables),
{
    conn.execute_batch(
        "PRAGMA journal_mode = WAL;
         CREATE TABLE IF NOT EXISTS sessions (key TEXT PRIMARY KEY,
             agent TEXT NOT NULL DEFAULT '', active_session_id TEXT,
             past_agent_session_ids TEXT NOT NULL DEFAULT '[]');
         CREATE TABLE IF NOT EXISTS schedules (id TEXT PRIMARY KEY, session_key TEXT NOT NULL,
             prompt TEXT NOT NULL, reply_ctx TEXT NOT NULL, schedule_kind TEXT NOT NULL,
             created_at_ms INTEGER NOT NULL, last_fired_ms INTEGER);
         CREATE INDEX IF NOT EXISTS idx_schedules_key ON schedules(session_key);
         PRAGMA user_version = 1;",
    )
}

/// The row that was read is the one of that key.
pub open spec fn reads_session(
    c: rusqlite::Connection,
    key: Seq<char>,
    row: Option<(String, Option<String>, String)>,
) -> bool {
    sole(c) ==> match row {
        Some((agent, active, past)) => session_rows(c).contains_pair(
            key,
            (agent@, text::opt_text(active), past@),
        ),
        None => !session_rows(c).contains_key(key),
    }
}

/// `rusqlite::Connection::query_row` on the table of conversations, by its
/// primary key; no row is `None`.
#[verifier::external_body]
fn select_session(conn: &rusqlite::Connection, key: &str) -> (r: Result<
    Option<(String, Option<String>, String)>,
    rusqlite::Error,
>)
    ensures
        r matches Ok(row) ==> reads_session(*conn, key@, row),
{
    let row = conn.query_row(
        "SELECT agent, active_session_id, past_agent_session_ids FROM sessions WHERE key = ?1",
        (key,),
        |row| Ok((row.get(0)?, row.get(1)?, row.get(2)?)),
    );
    rusqlite::OptionalExtension::optional(row)
}

/// `rusqlite::Connection::execute` of an insert into the table of
/// conversations that overwrites a row of the same key; an error changes
/// nothing.
#[verifier::external_body]
fn put_session(
    conn: &mut rusqlite::Connection,
    key: &str,
    agent: &str,
    active: &Option<String>,
    past: &str,
) -> (r: Result<usize, rusqlite::Error>)
    ensures
        sessions_became(
            *old(conn),
            *final(conn),
            r is Ok,
            session_rows(*old(conn)).insert(key@, (agent@, text::opt_text(*active), past@)),
        ),
        asked(*final(conn)) == asked(*old(conn)).push(
            Request::PutSession { key: key@, session: (agent@, text::opt_text(*active), past@) },
        ),
{
    conn.execute(
        "INSERT INTO sessions (key, agent, active_session_id, past_agent_session_ids)
         VALUES (?1, ?2, ?3, ?4) ON CONFLICT(key) DO UPDATE SET agent = excluded.agent,
         active_session_id = excluded.active_session_id,
         past_agent_session_ids = excluded.past_agent_session_ids",
        (key, agent, active, past),
    )
}

/// `rusqlite::Connection::execute` of a delete from the table of
/// conversations by key; an error changes nothing.
#[verifier::external_body]
fn delete_session(conn: &mut rusqlite::Connection, key: &str) -> (r: Result<
    usize,
    rusqlite::Error,
>)
    ensures
        sessions_became(*old(conn), *final(conn), r is Ok, session_rows(*old(conn)).remove(key@)),
        asked(*final(conn)) == asked(*old(conn)).push(Request::DropSession { key: key@ }),
{
    conn.execute("DELETE FROM sessions WHERE key = ?1", (key,))
}

/// A row of the table of conversations as it is read: key, agent, active
/// session id, history; or why it could not be read.
pub type SessionItem = Result<(String, String, Option<String>, String), rusqlite::Error>;

/// What was read is the table of conversations, in any order: every row that
/// could be read is one of the table's, none comes twice, and if all could be
/// read none is missing.
pub open spec fn lists_sessions(c: rusqlite::Connection, v: Seq<SessionItem>) -> bool {
    sole(c) ==> {
        &&& forall|i: int|
            0 <= i < v.len() ==> (#[trigger] v[i] matches Ok((k, a, s, p))
                ==> session_rows(c).contains_pair(k@, (a@, text::opt_text(s), p@)))
        &&& forall|i: int, j: int|
            0 <= i < j < v.len() ==> (#[trigger] v[i] matches Ok(a) ==> (#[trigger] v[j] matches Ok(b)
                ==> a.0@ != b.0@))
        &&& (forall|i: int| 0 <= i < v.len() ==> #[trigger] v[i] is Ok) ==> forall|k: Seq<char>| #[trigger]
            session_rows(c).contains_key(k) ==> exists|i: int|
                0 <= i < v.len() && (#[trigger] v[i])->Ok_0.0@ == k
    }
}

/// `rusqlite::Statement::query_map` over the whole table of conversations,
/// row by row.
#[verifier::external_body]
fn select_sessions(conn: &rusqlite::Connection) -> (r: Result<Vec<SessionItem>, rusqlite::Error>)
    ensures
        r matches Ok(v) ==> lists_sessions(*conn, v@),
{
    let mut stmt = conn.prepare(
        "SELECT key, agent, active_session_id, past_agent_session_ids FROM sessions",
    )?;
    let rows = stmt.query_map((), |row| {
        Ok((row.get(0)?, row.get(1)?, row.get(2)?, row.get(3)?))
    })?;
    Ok(rows.collect())
}

/// A row of the table of schedules as it is read: id, conversation, prompt,
/// reply context, schedule, time of creation, time of the last firing; or why
/// it could not be read.
pub type ScheduleItem = Result<
    (String, String, String, String, String, i64, Option<i64>),
    rusqlite::Error,
>;

/// The row of an item without its id.
pub open spec fn item_row(
    t: (String, String, String, String, String, i64, Option<i64>),
) -> ScheduleRow {
    (t.1@, t.2@, t.3@, t.4@, t.5, t.6)
}

/// What was read is the table of schedules, in any order.
pub open spec fn lists_schedules(c: rusqlite::Connection, v: Seq<ScheduleItem>) -> bool {
    sole(c) ==> {
        &&& forall|i: int|
            0 <= i < v.len() ==> (#[trigger] v[i] matches Ok(t) ==> schedule_rows(c).contains_pair(
                t.0@,
                item_row(t),
            ))
        &&& forall|i: int, j: int|
            0 <= i < j < v.len() ==> (#[trigger] v[i] matches Ok(a) ==> (#[trigger] v[j] matches Ok(b)
                ==> a.0@ != b.0@))
        &&& (forall|i: int| 0 <= i < v.len() ==> #[trigger] v[i] is Ok) ==> forall|k: Seq<char>| #[trigger]
            schedule_rows(c).contains_key(k) ==> exists|i: int|
                0 <= i < v.len() && (#[trigger] v[i])->Ok_0.0@ == k
    }
}

/// `rusqlite::Statement::query_map` over the whole table of schedules, row by
/// row.
#[verifier::external_body]
fn select_schedules(conn: &rusqlite::Connection) -> (r: Result<
    Vec<ScheduleItem>,
    rusqlite::Error,
>)
    ensures
        r matches Ok(v) ==> lists_schedules(*conn, v@),
{
    let mut stmt = conn.prepare(
        "SELECT id, session_key, prompt, reply_ctx, schedule_kind, created_at_ms, last_fired_ms
         FROM schedules",
    )?;
    let rows = stmt.query_map((), |r| {
        Ok((r.get(0)?, r.get(1)?, r.get(2)?, r.get(3)?, r.get(4)?, r.get(5)?, r.get(6)?))
    })?;
    Ok(rows.collect())
}

/// `rusqlite::Connection::execute` of an insert into the table of schedules.
/// It fails where the id is taken; an error changes nothing.
#[verifier::external_body]
fn insert_schedule(
    conn: &mut rusqlite::Connection,
    id: &str,
    row: (&str, &str, &str, &str, i64, Option<i64>),
) -> (r: Result<usize, rusqlite::Error>)
    ensures
        schedules_became(
            *old(conn),
            *final(conn),
            r is Ok,
            schedule_rows(*old(conn)).insert(
                id@,
                (row.0@, row.1@, row.2@, row.3@, row.4, row.5),
            ),
        ),
        r is Ok && sole(*old(conn)) ==> !schedule_rows(*old(conn)).contains_key(id@),
        asked(*final(conn)) == asked(*old(conn)).push(
            Request::AddSchedule {
                id: id@,
                schedule: (row.0@, row.1@, row.2@, row.3@, row.4, row.5),
            },
        ),
{
    conn.execute(
        "INSERT INTO schedules (id, session_key, prompt, reply_ctx, schedule_kind,
         created_at_ms, last_fired_ms) VALUES (?1, ?2, ?3, ?4, ?5, ?6, ?7)",
        (id, row.0, row.1, row.2, row.3, row.4, row.5),
    )
}

/// The row of that id belongs to that conversation.
pub open spec fn owned_row(m: Map<Seq<char>, ScheduleRow>, id: Seq<char>, key: Seq<char>) -> bool {
    m.contains_key(id) && m[id].0 == key
}

/// Without the row of that id, if it belongs to that conversation.
pub open spec fn without_owned(
    m: Map<Seq<char>, ScheduleRow>,
    id: Seq<char>,
    key: Seq<char>,
) -> Map<Seq<char>, ScheduleRow> {
    if owned_row(m, id, key) {
        m.remove(id)
    } else {
        m
    }
}

/// `rusqlite::Connection::execute` of a delete from the table of schedules by
/// conversation and id: the number of rows that went, at most one. An error
/// changes nothing.
#[verifier::external_body]
fn delete_schedule(conn: &mut rusqlite::Connection, key: &str, id: &str) -> (r: Result<
    usize,
    rusqlite::Error,
>)
    ensures
        schedules_became(
            *old(conn),
            *final(conn),
            r is Ok,
            without_owned(schedule_rows(*old(conn)), id@, key@),
        ),
        r matches Ok(n) ==> (sole(*old(conn)) ==> (n > 0) == owned_row(
            schedule_rows(*old(conn)),
            id@,
            key@,
        )),
        asked(*final(conn)) == asked(*old(conn)).push(
            Request::DropSchedule { key: key@, id: id@ },
        ),
{
    conn.execute("DELETE FROM schedules WHERE session_key = ?1 AND id = ?2", (key, id))
}

/// With a new schedule and time of the last firing in the row of that id.
pub open spec fn with_fired(
    m: Map<Seq<char>, ScheduleRow>,
    id: Seq<char>,
    fired: i64,
    kind: Seq<char>,
) -> Map<Seq<char>, ScheduleRow> {
    if m.contains_key(id) {
        let row = m[id];
        m.insert(id, (row.0, row.1, row.2, kind, row.4, Some(fired)))
    } else {
        m
    }
}

/// `rusqlite::Connection::execute` of an update of the row of that id; an
/// error changes nothing.
#[verifier::external_body]
fn update_schedule(
    conn: &mut rusqlite::Connection,
    id: &str,
    fired: i64,
    kind: &str,
) -> (r: Result<usize, rusqlite::Error>)
    ensures
        schedules_became(
            *old(conn),
            *final(conn),
            r is Ok,
            with_fired(schedule_rows(*old(conn)), id@, fired, kind@),
        ),
        asked(*final(conn)) == asked(*old(conn)).push(
            Request::MoveSchedule { id: id@, fired, kind: kind@ },
        ),
{
    conn.execute(
        "UPDATE schedules SET last_fired_ms = ?1, schedule_kind = ?2 WHERE id = ?3",
        (fired, kind, id),
    )
}

/// The statement that deletes `n` schedules by id.
pub open spec fn delete_sql(n: nat) -> Seq<char> {
    "DELETE FROM schedules WHERE id IN ("@ + text::join(
        Seq::new(n, |i: int| "?"@ + text::decimal((i + 1) as nat)),
        ","@,
    ) + ")"@
}

/// `rusqlite::Connection::execute` of a delete from the table of schedules by
/// ids; an error changes nothing.
#[verifier::external_body]
fn delete_schedules(conn: &mut rusqlite::Connection, sql: &str, ids: &[String]) -> (r: Result<
    usize,
    rusqlite::Error,
>)
    requires
        sql@ == delete_sql(ids@.len()),
    ensures
        schedules_became(
            *old(conn),
            *final(conn),
            r is Ok,
            schedule_rows(*old(conn)).remove_keys(text::texts(ids@).to_set()),
        ),
        asked(*final(conn)) == asked(*old(conn)).push(
            Request::DropSchedules { ids: text::texts(ids@) },
        ),
{
    conn.execute(sql, rusqlite::params_from_iter(ids))
}

/// The text of a `rusqlite::Error`. Nothing is promised of it.
#[verifier::external_body]
fn sql_error_text(e: &rusqlite::Error) -> (r: String) {
    e.to_string()
}

/// The text of a `serde_json::Error`. Nothing is promised of it.
#[verifier::external_body]
fn json_error_text(e: &serde_json::Error) -> (r: String) {
    e.to_string()
}

// ── The history column ──────────────────────────────────────────────────

/// The stored form of a history.
pub uninterp spec fn past_text(p: Seq<(Seq<char>, Seq<char>)>) -> Seq<char>;

/// The history that a stored form stands for.
pub uninterp spec fn past_from(s: Seq<char>) -> Option<Seq<(Seq<char>, Seq<char>)>>;

/// `serde_json::to_string` of a list of pairs of strings: an array of arrays
/// of two strings. The text is read back as the same list. It only fails where
/// the value's own serialisation fails or where there is a map with keys that
/// are no strings; a list of strings is neither.
#[verifier::external_body]
fn encode_past(p: &Vec<(String, String)>) -> (r: Result<String, serde_json::Error>)
    ensures
        match r {
            Ok(s) => s@ == past_text(text::pair_texts(p@)) && past_from(s@) == Some(
                text::pair_texts(p@),
            ),
            Err(_) => false,
        },
{
    serde_json::to_string(p)
}

/// `serde_json::from_str` into a list of pairs of strings; none where the text
/// is something else.
#[verifier::external_body]
fn decode_past(s: &str) -> (r: Option<Vec<(String, String)>>)
    ensures
        match r {
            Some(p) => past_from(s@) == Some(text::pair_texts(p@)),
            None => past_from(s@) is None,
        },
{
    serde_json::from_str(s).ok()
}

/// What a row says of a conversation. A history that cannot be read counts as
/// none.
pub open spec fn entry_of_row(row: SessionRow) -> registry::RegistryView {
    registry::RegistryView {
        agent: row.0,
        active: row.1,
        past: match past_from(row.2) {
            Some(p) => p,
            None => Seq::empty(),
        },
    }
}

/// What a row says of a conversation.
pub fn entry_from_row(agent: String, active: Option<String>, past: &str) -> (r: RegistryEntry)
    ensures
        r@ == entry_of_row((agent@, text::opt_text(active), past@)),
{
    let past: Vec<(String, String)> = match decode_past(past) {
        Some(p) => p,
        None => {
            let none: Vec<(String, String)> = Vec::new();
            assert(text::pair_texts(none@) =~= Seq::<(Seq<char>, Seq<char>)>::empty());
            none
        },
    };
    RegistryEntry { agent, active_session_id: active, past_agent_session_ids: past }
}

/// The schedule that a row stands for; none where its columns cannot be read.
pub open spec fn schedule_of_row(id: Seq<char>, row: ScheduleRow) -> Option<
    schedule::ScheduleEntryView,
> {
    match (json::parsed(row.2), json::parsed(row.3)) {
        (Some(c), Some(k)) => match (codec::ctx_from(c), codec::kind_from(k)) {
            (Some(reply_ctx), Some(kind)) => Some(
                schedule::ScheduleEntryView {
                    id,
                    key: row.0,
                    prompt: row.1,
                    reply_ctx,
                    schedule: kind,
                    created_at_ms: row.4,
                    last_fired_ms: row.5,
                },
            ),
            _ => None,
        },
        _ => None,
    }
}

/// The schedule that a row stands for.
pub fn schedule_from_item(t: &(String, String, String, String, String, i64, Option<i64>)) -> (r:
    Option<ScheduleEntry>)
    ensures
        match r {
            Some(e) => schedule_of_row(t.0@, item_row(*t)) == Some(e@),
            None => schedule_of_row(t.0@, item_row(*t)) is None,
        },
{
    match (json::parse(t.3.as_str()), json::parse(t.4.as_str())) {
        (Some(c), Some(k)) => match (codec::ctx_of_json(&c), codec::kind_of_json(&k)) {
            (Some(reply_ctx), Some(schedule)) => Some(
                ScheduleEntry {
                    id: t.0.clone(),
                    key: SessionKey(t.1.clone()),
                    prompt: t.2.clone(),
                    reply_ctx,
                    schedule,
                    created_at_ms: t.5,
                    last_fired_ms: t.6,
                },
            ),
            _ => None,
        },
        _ => None,
    }
}

// ── Listings ────────────────────────────────────────────────────────────

/// The positions of the items to keep, in order.
pub open spec fn picked<T>(v: Seq<T>, keep: spec_fn(T) -> bool) -> Seq<int>
    decreases v.len(),
{
    if v.len() == 0 {
        Seq::empty()
    } else if keep(v.last()) {
        picked(v.drop_last(), keep).push(v.len() - 1)
    } else {
        picked(v.drop_last(), keep)
    }
}

proof fn lemma_picked<T>(v: Seq<T>, keep: spec_fn(T) -> bool)
    ensures
        forall|n: int|
            0 <= n < picked(v, keep).len() ==> 0 <= #[trigger] picked(v, keep)[n] < v.len() && keep(
                v[picked(v, keep)[n]],
            ),
        forall|n: int, m: int|
            0 <= n < m < picked(v, keep).len() ==> #[trigger] picked(v, keep)[n]
                < #[trigger] picked(v, keep)[m],
        forall|i: int| 0 <= i < v.len() && keep(#[trigger] v[i]) ==> picked(v, keep).contains(i),
        picked(v, keep).len() <= v.len(),
    decreases v.len(),
{
    if v.len() > 0 {
        let front = v.drop_last();
        let head = picked(front, keep);
        let all = picked(v, keep);
        lemma_picked(front, keep);
        assert forall|n: int| 0 <= n < all.len() implies 0 <= #[trigger] all[n] < v.len() && keep(
            v[all[n]],
        ) by {
            if n < head.len() {
                assert(all[n] == head[n]);
                assert(front[head[n]] == v[head[n]]);
            }
        }
        assert forall|n: int, m: int| 0 <= n < m < all.len() implies #[trigger] all[n]
            < #[trigger] all[m] by {
            assert(all[n] == head[n]);
            if m < head.len() {
                assert(all[m] == head[m]);
            }
        }
        assert forall|i: int| 0 <= i < v.len() && keep(#[trigger] v[i]) implies all.contains(i) by {
            if i == v.len() - 1 {
                assert(all[all.len() - 1] == i);
            } else {
                assert(front[i] == v[i]);
                let n = choose|n: int| 0 <= n < head.len() && head[n] == i;
                assert(all[n] == i);
            }
        }
    }
}

/// Where as many items are picked as there are, all are.
proof fn lemma_all_picked<T>(v: Seq<T>, keep: spec_fn(T) -> bool)
    requires
        picked(v, keep).len() == v.len(),
    ensures
        forall|i: int| 0 <= i < v.len() ==> keep(#[trigger] v[i]),
    decreases v.len(),
{
    if v.len() > 0 {
        let front = v.drop_last();
        lemma_picked(front, keep);
        lemma_all_picked(front, keep);
        assert forall|i: int| 0 <= i < v.len() implies keep(#[trigger] v[i]) by {
            if i < v.len() - 1 {
                assert(keep(front[i]));
            }
        }
    }
}

/// An item that could be read.
pub open spec fn is_read<T, E>(t: Result<T, E>) -> bool {
    t is Ok
}

/// The conversation of an item that could be read.
pub open spec fn session_of_item(t: SessionItem) -> (Seq<char>, registry::RegistryView) {
    let t = t->Ok_0;
    (t.0@, entry_of_row((t.1@, text::opt_text(t.2), t.3@)))
}

/// The conversations of the items that could be read, in order.
pub open spec fn sessions_of_items(v: Seq<SessionItem>) -> Seq<
    (Seq<char>, registry::RegistryView),
> {
    let at = picked(v, |t: SessionItem| is_read(t));
    Seq::new(at.len(), |n: int| session_of_item(v[at[n]]))
}

pub open spec fn session_views(v: Seq<(SessionKey, RegistryEntry)>) -> Seq<
    (Seq<char>, registry::RegistryView),
> {
    Seq::new(v.len(), |i: int| (v[i].0@, v[i].1@))
}

/// The conversations that were read, and how many rows could not be.
pub struct SessionListing {
    pub entries: Vec<(SessionKey, RegistryEntry)>,
    pub unreadable: usize,
}

/// The schedules that were read, and how many rows could not be.
pub struct ScheduleListing {
    pub entries: Vec<ScheduleEntry>,
    pub unreadable: usize,
}

/// The conversations of the rows that could be read, in order.
pub fn sessions_from(items: &Vec<SessionItem>) -> (r: SessionListing)
    ensures
        session_views(r.entries@) == sessions_of_items(items@),
        r.unreadable == items@.len() - sessions_of_items(items@).len(),
{
    let ghost keep = |t: SessionItem| is_read(t);
    let mut entries: Vec<(SessionKey, RegistryEntry)> = Vec::new();
    let mut unreadable: usize = 0;
    let mut i: usize = 0;
    assert(session_views(entries@) =~= sessions_of_items(items@.take(0)));
    while i < items.len()
        invariant
            i <= items@.len(),
            keep == (|t: SessionItem| is_read(t)),
            session_views(entries@) == sessions_of_items(items@.take(i as int)),
            unreadable == i - entries@.len(),
        decreases items@.len() - i,
    {
        let ghost front = items@.take(i as int);
        let ghost next = items@.take(i + 1);
        proof {
            assert(next.drop_last() =~= front);
            lemma_picked(front, keep);
        }
        let ghost before = session_views(entries@);
        match &items[i] {
            Ok(t) => {
                let entry: RegistryEntry = entry_from_row(
                    t.1.clone(),
                    types::copy_opt(&t.2),
                    t.3.as_str(),
                );
                entries.push((SessionKey(t.0.clone()), entry));
                proof {
                    let at = picked(next, keep);
                    assert(at == picked(front, keep).push(i as int));
                    assert(session_views(entries@) =~= before.push(session_of_item(items@[i as int])));
                    assert(sessions_of_items(next) =~= sessions_of_items(front).push(
                        session_of_item(next[i as int]),
                    )) by {
                        assert forall|n: int| 0 <= n < picked(front, keep).len() implies next[at[n]]
                            == front[picked(front, keep)[n]] by {}
                    }
                }
            },
            Err(_) => {
                unreadable = unreadable + 1;
                proof {
                    assert(sessions_of_items(next) =~= sessions_of_items(front)) by {
                        assert forall|n: int| 0 <= n < picked(front, keep).len() implies next[picked(
                            front,
                            keep,
                        )[n]] == front[picked(front, keep)[n]] by {}
                    }
                }
            },
        }
        i = i + 1;
    }
    assert(items@.take(i as int) =~= items@);
    assert(session_views(entries@).len() == entries@.len());
    SessionListing { entries, unreadable }
}

/// An item that stands for a schedule.
pub open spec fn is_schedule(t: ScheduleItem) -> bool {
    t is Ok && schedule_of_row(t->Ok_0.0@, item_row(t->Ok_0)) is Some
}

/// The schedule of an item that stands for one.
pub open spec fn schedule_of_item(t: ScheduleItem) -> schedule::ScheduleEntryView {
    schedule_of_row(t->Ok_0.0@, item_row(t->Ok_0))->Some_0
}

/// The schedules of the items that stand for one, in order.
pub open spec fn schedules_of_items(v: Seq<ScheduleItem>) -> Seq<schedule::ScheduleEntryView> {
    let at = picked(v, |t: ScheduleItem| is_schedule(t));
    Seq::new(at.len(), |n: int| schedule_of_item(v[at[n]]))
}

/// The schedules of the rows that stand for one, in order. Only rows that could
/// not be read are counted.
pub fn schedules_from(items: &Vec<ScheduleItem>) -> (r: ScheduleListing)
    ensures
        schedule::entry_views(r.entries@) == schedules_of_items(items@),
        r.unreadable == items@.len() - picked(items@, |t: ScheduleItem| is_read(t)).len(),
{
    let ghost keep = |t: ScheduleItem| is_schedule(t);
    let ghost read = |t: ScheduleItem| is_read(t);
    let mut entries: Vec<ScheduleEntry> = Vec::new();
    let mut unreadable: usize = 0;
    let mut i: usize = 0;
    assert(schedule::entry_views(entries@) =~= schedules_of_items(items@.take(0)));
    while i < items.len()
        invariant
            i <= items@.len(),
            keep == (|t: ScheduleItem| is_schedule(t)),
            read == (|t: ScheduleItem| is_read(t)),
            schedule::entry_views(entries@) == schedules_of_items(items@.take(i as int)),
            unreadable == i - picked(items@.take(i as int), read).len(),
        decreases items@.len() - i,
    {
        let ghost front = items@.take(i as int);
        let ghost next = items@.take(i + 1);
        let ghost before = schedule::entry_views(entries@);
        proof {
            assert(next.drop_last() =~= front);
            lemma_picked(front, keep);
            lemma_picked(front, read);
            assert forall|n: int| 0 <= n < picked(front, keep).len() implies next[picked(
                front,
                keep,
            )[n]] == front[picked(front, keep)[n]] by {}
        }
        match &items[i] {
            Ok(t) => match schedule_from_item(t) {
                Some(e) => {
                    let ghost view = e@;
                    entries.push(e);
                    proof {
                        assert(picked(next, keep) == picked(front, keep).push(i as int));
                        assert(schedule::entry_views(entries@) =~= before.push(view));
                        assert(schedules_of_items(next) =~= schedules_of_items(front).push(view));
                    }
                },
                None => {
                    assert(schedules_of_items(next) =~= schedules_of_items(front));
                },
            },
            Err(_) => {
                unreadable = unreadable + 1;
                assert(schedules_of_items(next) =~= schedules_of_items(front));
            },
        }
        i = i + 1;
    }
    assert(items@.take(i as int) =~= items@);
    ScheduleListing { entries, unreadable }
}

// ── The store ───────────────────────────────────────────────────────────

/// Why an operation on the store failed.
#[derive(Debug, PartialEq, Eq)]
pub enum StoreError {
    /// The database refused; the text is its own.
    Sql(String),
    /// The database was written by a later version.
    TooNew { found: u32 },
    /// A value could not be encoded.
    Encode(String),
}

impl StoreError {
    /// The error in words.
    pub fn message(&self) -> (r: String)
        ensures
            match self {
                StoreError::Sql(e) => r@ == e@,
                StoreError::TooNew { found } => r@ == "state.db user_version "@ + text::decimal(
                    *found as nat,
                ) + " > expected "@ + text::decimal(SCHEMA_VERSION as nat),
                StoreError::Encode(e) => r@ == e@,
            },
    {
        match self {
            StoreError::Sql(e) => e.clone(),
            StoreError::TooNew { found } => {
                let mut out: String = text::concat3(
                    "state.db user_version ",
                    text::decimal_text(*found as u64).as_str(),
                    " > expected ",
                );
                out.append(text::decimal_text(SCHEMA_VERSION as u64).as_str());
                out
            },
            StoreError::Encode(e) => e.clone(),
        }
    }
}

/// What the database says to reading a conversation.
pub fn session_read(
    row: Result<Option<(String, Option<String>, String)>, rusqlite::Error>,
) -> (r: Result<Option<RegistryEntry>, StoreError>)
    ensures
        match row {
            Ok(Some((agent, active, past))) => r matches Ok(Some(e)) && e@ == entry_of_row(
                (agent@, text::opt_text(active), past@),
            ),
            Ok(None) => r matches Ok(None),
            Err(_) => r matches Err(StoreError::Sql(_)),
        },
{
    match row {
        Ok(Some((agent, active, past))) => Ok(Some(entry_from_row(agent, active, past.as_str()))),
        Ok(None) => Ok(None),
        Err(e) => Err(StoreError::Sql(sql_error_text(&e))),
    }
}

/// What the database says to reading all conversations.
pub fn sessions_read(rows: Result<Vec<SessionItem>, rusqlite::Error>) -> (r: Result<
    SessionListing,
    StoreError,
>)
    ensures
        match rows {
            Ok(items) => r matches Ok(l) && session_views(l.entries@) == sessions_of_items(items@)
                && l.unreadable == items@.len() - sessions_of_items(items@).len(),
            Err(_) => r matches Err(StoreError::Sql(_)),
        },
{
    match rows {
        Ok(items) => Ok(sessions_from(&items)),
        Err(e) => Err(StoreError::Sql(sql_error_text(&e))),
    }
}

/// What the database says to reading all schedules.
pub fn schedules_read(rows: Result<Vec<ScheduleItem>, rusqlite::Error>) -> (r: Result<
    ScheduleListing,
    StoreError,
>)
    ensures
        match rows {
            Ok(items) => r matches Ok(l) && schedule::entry_views(l.entries@) == schedules_of_items(
                items@,
            ) && l.unreadable == items@.len() - picked(
                items@,
                |t: ScheduleItem| is_read(t),
            ).len(),
            Err(_) => r matches Err(StoreError::Sql(_)),
        },
{
    match rows {
        Ok(items) => Ok(schedules_from(&items)),
        Err(e) => Err(StoreError::Sql(sql_error_text(&e))),
    }
}

/// What the database says to a change.
pub fn written(done: Result<usize, rusqlite::Error>) -> (r: Result<(), StoreError>)
    ensures
        match done {
            Ok(_) => r is Ok,
            Err(_) => r matches Err(StoreError::Sql(_)),
        },
{
    match done {
        Ok(_) => Ok(()),
        Err(e) => Err(StoreError::Sql(sql_error_text(&e))),
    }
}

/// What the database says to removing a schedule: whether a row went.
pub fn removed(done: Result<usize, rusqlite::Error>) -> (r: Result<bool, StoreError>)
    ensures
        match done {
            Ok(n) => r matches Ok(found) && found == (n > 0),
            Err(_) => r matches Err(StoreError::Sql(_)),
        },
{
    match done {
        Ok(n) => Ok(n > 0),
        Err(e) => Err(StoreError::Sql(sql_error_text(&e))),
    }
}

/// The row that a conversation is stored in.
pub open spec fn row_of_entry(e: registry::RegistryView) -> SessionRow {
    (e.agent, e.active, past_text(e.past))
}

/// The row that a schedule is stored in.
pub open spec fn row_of_schedule(e: schedule::ScheduleEntryView) -> ScheduleRow {
    (
        e.key,
        e.prompt,
        json::rendered(codec::ctx_json(e.reply_ctx)),
        json::rendered(codec::kind_json(e.schedule)),
        e.created_at_ms,
        e.last_fired_ms,
    )
}

/// What opening a database of a given schema version takes.
#[derive(Clone, Copy, Debug, PartialEq, Eq, Structural)]
pub enum SchemaStep {
    /// A new database: its tables are to be created.
    Create,
    /// The tables are there.
    Ready,
    /// The database was written by a later version.
    Refuse,
}

/// What opening a database of a given schema version takes.
pub fn schema_step(version: u32) -> (r: SchemaStep)
    ensures
        r == (if version == 0 {
            SchemaStep::Create
        } else if version > SCHEMA_VERSION {
            SchemaStep::Refuse
        } else {
            SchemaStep::Ready
        }),
{
    if version == 0 {
        SchemaStep::Create
    } else if version > SCHEMA_VERSION {
        SchemaStep::Refuse
    } else {
        SchemaStep::Ready
    }
}

pub struct StateDb {
    conn: rusqlite::Connection,
}

impl StateDb {
    /// Nobody else writes to the database.
    pub closed spec fn private(self) -> bool {
        sole(self.conn)
    }

    pub closed spec fn session_table(self) -> Map<Seq<char>, SessionRow> {
        session_rows(self.conn)
    }

    pub closed spec fn schedule_table(self) -> Map<Seq<char>, ScheduleRow> {
        schedule_rows(self.conn)
    }

    /// The changes that were asked of the database, whether or not they were
    /// done.
    pub closed spec fn asked(self) -> Seq<Request> {
        asked(self.conn)
    }

    /// What the store knows of a conversation.
    pub open spec fn session(self, key: Seq<char>) -> Option<registry::RegistryView> {
        if self.session_table().contains_key(key) {
            Some(entry_of_row(self.session_table()[key]))
        } else {
            None
        }
    }

    /// The schedule of that id; none where it is missing or cannot be read.
    pub open spec fn schedule(self, id: Seq<char>) -> Option<schedule::ScheduleEntryView> {
        if self.schedule_table().contains_key(id) {
            schedule_of_row(id, self.schedule_table()[id])
        } else {
            None
        }
    }

    /// From `self` to `after` no conversation but that of `key` changed, and no
    /// schedule.
    pub open spec fn only_session_changed(self, after: StateDb, key: Seq<char>) -> bool {
        &&& after.private()
        &&& after.schedule_table() == self.schedule_table()
        &&& forall|k: Seq<char>| k != key ==> #[trigger] after.session(k) == self.session(k)
    }

    /// From `self` to `after` no schedule but that of `id` changed, and no
    /// conversation.
    pub open spec fn only_schedule_changed(self, after: StateDb, id: Seq<char>) -> bool {
        &&& after.private()
        &&& after.session_table() == self.session_table()
        &&& forall|k: Seq<char>| k != id ==> #[trigger] after.schedule(k) == self.schedule(k)
    }

    /// From `self` to `after` nothing changed.
    pub open spec fn unchanged(self, after: StateDb) -> bool {
        after.private() && after.session_table() == self.session_table() && after.schedule_table()
            == self.schedule_table()
    }

    /// The store holds what the database held.
    pub open spec fn opens(self, conn: rusqlite::Connection) -> bool {
        sole(conn) ==> self.private() && self.session_table() == session_rows(conn)
            && self.schedule_table() == schedule_rows(conn)
    }

    /// A store on an open database whose schema has that version.
    pub fn with_version(conn: rusqlite::Connection, version: u32) -> (r: Result<
        StateDb,
        StoreError,
    >)
        ensures
            version == 0 ==> match r {
                Ok(db) => db.opens(conn) && db.asked() == asked(conn).push(Request::CreateTables),
                Err(e) => e is Sql,
            },
            0 < version <= SCHEMA_VERSION ==> (r matches Ok(db) && db.opens(conn) && db.asked()
                == asked(conn)),
            version > SCHEMA_VERSION ==> (r matches Err(StoreError::TooNew { found }) && found
                == version),
    {
        let mut conn = conn;
        match schema_step(version) {
            SchemaStep::Create => match create_tables(&mut conn) {
                Ok(()) => Ok(StateDb { conn }),
                Err(e) => Err(StoreError::Sql(sql_error_text(&e))),
            },
            SchemaStep::Ready => Ok(StateDb { conn }),
            SchemaStep::Refuse => Err(StoreError::TooNew { found: version }),
        }
    }

    /// A store on an open database. Its tables are created if it is new; one
    /// of a later version is refused.
    pub fn with_connection(conn: rusqlite::Connection) -> (r: Result<StateDb, StoreError>)
        ensures
            match r {
                Ok(db) => db.opens(conn) && (db.asked() == asked(conn) || db.asked() == asked(
                    conn,
                ).push(Request::CreateTables)),
                Err(StoreError::TooNew { found }) => found > SCHEMA_VERSION,
                Err(e) => e is Sql,
            },
    {
        match schema_version(&conn) {
            Ok(version) => StateDb::with_version(conn, version),
            Err(e) => Err(StoreError::Sql(sql_error_text(&e))),
        }
    }

    /// An empty store in memory.
    pub fn in_memory() -> (r: Result<StateDb, StoreError>)
        ensures
            match r {
                Ok(db) => db.private() && db.session_table() == Map::<Seq<char>, SessionRow>::empty()
                    && db.schedule_table() == Map::<Seq<char>, ScheduleRow>::empty(),
                Err(StoreError::TooNew { found }) => found > SCHEMA_VERSION,
                Err(e) => e is Sql,
            },
    {
        match connect_memory() {
            Ok(conn) => StateDb::with_connection(conn),
            Err(e) => Err(StoreError::Sql(sql_error_text(&e))),
        }
    }

    /// What the store knows of a conversation.
    pub fn find_session(&self, key: &SessionKey) -> (r: Result<Option<RegistryEntry>, StoreError>)
        ensures
            r matches Ok(e) ==> (self.private() ==> match e {
                Some(e) => self.session(key@) == Some(e@),
                None => self.session(key@) is None,
            }),
            r matches Err(e) ==> e is Sql,
    {
        session_read(select_session(&self.conn, key.0.as_str()))
    }

    /// What the store knows of a conversation; none also where it cannot be
    /// read.
    pub fn get_session(&self, key: &SessionKey) -> (r: Option<RegistryEntry>)
        ensures
            r matches Some(e) ==> (self.private() ==> self.session(key@) == Some(e@)),
    {
        match self.find_session(key) {
            Ok(e) => e,
            Err(_) => None,
        }
    }

    /// Store what is known of a conversation.
    pub fn upsert_session(&mut self, key: &SessionKey, entry: &RegistryEntry) -> (r: Result<
        (),
        StoreError,
    >)
        ensures
            old(self).private() && r is Ok ==> final(self).session(key@) == Some(entry@)
                && old(self).only_session_changed(*final(self), key@),
            old(self).private() && r is Err ==> old(self).unchanged(*final(self)),
            final(self).asked() == old(self).asked().push(
                Request::PutSession { key: key@, session: row_of_entry(entry@) },
            ),
            r matches Err(e) ==> e is Sql,
    {
        let past: String = match encode_past(&entry.past_agent_session_ids) {
            Ok(p) => p,
            Err(e) => {
                return Err(StoreError::Encode(json_error_text(&e)));
            },
        };
        written(
            put_session(
                &mut self.conn,
                key.0.as_str(),
                entry.agent.as_str(),
                &entry.active_session_id,
                past.as_str(),
            ),
        )
    }

    /// Forget a conversation.
    pub fn remove_session(&mut self, key: &SessionKey) -> (r: Result<(), StoreError>)
        ensures
            old(self).private() && r is Ok ==> final(self).session(key@) is None
                && old(self).only_session_changed(*final(self), key@),
            old(self).private() && r is Err ==> old(self).unchanged(*final(self)),
            final(self).asked() == old(self).asked().push(Request::DropSession { key: key@ }),
            r matches Err(e) ==> e is Sql,
    {
        written(delete_session(&mut self.conn, key.0.as_str()))
    }

    /// All conversations, in any order.
    pub fn list_sessions(&self) -> (r: Result<SessionListing, StoreError>)
        ensures
            r matches Ok(l) ==> (self.private() ==> {
                &&& forall|i: int|
                    0 <= i < l.entries@.len() ==> self.session((#[trigger] l.entries@[i]).0@)
                        == Some(l.entries@[i].1@)
                &&& forall|i: int, j: int|
                    0 <= i < j < l.entries@.len() ==> (#[trigger] l.entries@[i]).0@ != (
                    #[trigger] l.entries@[j]).0@
                &&& l.unreadable == 0 ==> forall|k: Seq<char>| #[trigger]
                    self.session(k) is Some ==> exists|i: int|
                        0 <= i < l.entries@.len() && (#[trigger] l.entries@[i]).0@ == k
            }),
            r matches Err(e) ==> e is Sql,
    {
        let rows: Result<Vec<SessionItem>, rusqlite::Error> = select_sessions(&self.conn);
        let ghost all = rows->Ok_0@;
        let l: SessionListing = match sessions_read(rows) {
            Ok(l) => l,
            Err(e) => {
                return Err(e);
            },
        };
        proof {
            let keep = |t: SessionItem| is_read(t);
            let from = picked(all, keep);
            lemma_picked(all, keep);
            assert forall|n: int| 0 <= n < l.entries@.len() implies all[#[trigger] from[n]] is Ok && (
            l.entries@[n].0@, l.entries@[n].1@) == session_of_item(all[from[n]]) by {
                assert(session_views(l.entries@)[n] == sessions_of_items(all)[n]);
            }
            assert(session_views(l.entries@).len() == l.entries@.len());
            if self.private() {
                assert forall|i: int| 0 <= i < l.entries@.len() implies self.session(
                    (#[trigger] l.entries@[i]).0@,
                ) == Some(l.entries@[i].1@) by {
                    assert(all[from[i]] is Ok);
                }
                assert forall|i: int, j: int| 0 <= i < j < l.entries@.len() implies (
                #[trigger] l.entries@[i]).0@ != (#[trigger] l.entries@[j]).0@ by {
                    assert(from[i] < from[j]);
                    assert(all[from[j]] is Ok && all[from[i]] is Ok);
                }
                if l.unreadable == 0 {
                    lemma_all_picked(all, keep);
                    assert forall|k: Seq<char>| #[trigger] self.session(k) is Some implies exists|
                        i: int,
                    | 0 <= i < l.entries@.len() && (#[trigger] l.entries@[i]).0@ == k by {
                        assert(session_rows(self.conn).contains_key(k));
                        assert forall|i: int| 0 <= i < all.len() implies #[trigger] all[i] is Ok by {
                            assert(keep(all[i]));
                        }
                        let i = choose|i: int| 0 <= i < all.len() && (#[trigger] all[i])->Ok_0.0@ == k;
                        let n = choose|n: int| 0 <= n < from.len() && from[n] == i;
                        assert(l.entries@[n].0@ == k);
                    }
                }
            }
        }
        Ok(l)
    }

    /// All conversations, in any order; those that cannot be read are left out.
    pub fn all_sessions(&self) -> (r: Vec<(SessionKey, RegistryEntry)>)
        ensures
            self.private() ==> forall|i: int|
                0 <= i < r@.len() ==> self.session((#[trigger] r@[i]).0@) == Some(r@[i].1@),
            self.private() ==> forall|i: int, j: int|
                0 <= i < j < r@.len() ==> (#[trigger] r@[i]).0@ != (#[trigger] r@[j]).0@,
    {
        match self.list_sessions() {
            Ok(l) => l.entries,
            Err(_) => Vec::new(),
        }
    }

    /// Store a schedule. Its id must be new.
    pub fn add_schedule(&mut self, entry: &ScheduleEntry) -> (r: Result<(), StoreError>)
        ensures
            old(self).private() && r is Ok ==> !old(self).schedule_table().contains_key(entry.id@)
                && old(self).only_schedule_changed(*final(self), entry.id@) && (json::canonical(
                entry@.reply_ctx.extra,
                99,
            ) ==> final(self).schedule(entry.id@) == Some(entry@)),
            old(self).private() && r is Err ==> old(self).unchanged(*final(self)),
            final(self).asked() == old(self).asked().push(
                Request::AddSchedule { id: entry.id@, schedule: row_of_schedule(entry@) },
            ),
            r matches Err(e) ==> e is Sql,
    {
        let ctx: String = json::render(&codec::ctx_to_json(&entry.reply_ctx));
        let kind: String = json::render(&codec::kind_to_json(&entry.schedule));
        proof {
            codec::stored_context_reads_back(entry@.reply_ctx);
            codec::stored_schedule_reads_back(entry.schedule);
        }
        written(
            insert_schedule(
                &mut self.conn,
                entry.id.as_str(),
                (
                    entry.key.0.as_str(),
                    entry.prompt.as_str(),
                    ctx.as_str(),
                    kind.as_str(),
                    entry.created_at_ms,
                    entry.last_fired_ms,
                ),
            ),
        )
    }

    /// Remove the schedule of that id if it belongs to that conversation, and
    /// say whether it did.
    pub fn remove_schedule(&mut self, key: &SessionKey, id: &str) -> (r: Result<bool, StoreError>)
        ensures
            old(self).private() && r is Err ==> old(self).unchanged(*final(self)),
            r matches Ok(found) ==> (old(self).private() ==> {
                &&& found == owned_row(old(self).schedule_table(), id@, key@)
                &&& old(self).only_schedule_changed(*final(self), id@)
                &&& found ==> final(self).schedule(id@) is None
                &&& !found ==> old(self).unchanged(*final(self))
            }),
            final(self).asked() == old(self).asked().push(
                Request::DropSchedule { key: key@, id: id@ },
            ),
            r matches Err(e) ==> e is Sql,
    {
        removed(delete_schedule(&mut self.conn, key.0.as_str(), id))
    }

    /// Store when a schedule fired and how it goes on.
    pub fn update_schedule_fired(&mut self, id: &str, last_fired_ms: i64, new_kind: &ScheduleKind)
        -> (r: Result<(), StoreError>)
        ensures
            old(self).private() && r is Err ==> old(self).unchanged(*final(self)),
            old(self).private() && r is Ok ==> old(self).only_schedule_changed(*final(self), id@)
                && final(self).schedule(id@) == (match old(self).schedule(id@) {
                Some(e) => Some(
                    schedule::ScheduleEntryView {
                        schedule: *new_kind,
                        last_fired_ms: Some(last_fired_ms),
                        ..e
                    },
                ),
                None => final(self).schedule(id@),
            }),
            final(self).asked() == old(self).asked().push(
                Request::MoveSchedule {
                    id: id@,
                    fired: last_fired_ms,
                    kind: json::rendered(codec::kind_json(*new_kind)),
                },
            ),
            r matches Err(e) ==> e is Sql,
    {
        let kind: String = json::render(&codec::kind_to_json(new_kind));
        proof {
            codec::stored_schedule_reads_back(*new_kind);
        }
        written(update_schedule(&mut self.conn, id, last_fired_ms, kind.as_str()))
    }

    /// Remove the schedules of these ids.
    pub fn remove_schedules_by_ids(&mut self, ids: &[String]) -> (r: Result<(), StoreError>)
        ensures
            old(self).private() && r is Err ==> old(self).unchanged(*final(self)),
            old(self).private() && r is Ok ==> final(self).private()
                && final(self).session_table() == old(self).session_table()
                && final(self).schedule_table() == old(self).schedule_table().remove_keys(
                text::texts(ids@).to_set(),
            ),
            ids@.len() == 0 ==> r is Ok && *final(self) == *old(self),
            ids@.len() > 0 ==> final(self).asked() == old(self).asked().push(
                Request::DropSchedules { ids: text::texts(ids@) },
            ),
            r matches Err(e) ==> e is Sql,
    {
        if ids.len() == 0 {
            proof {
                assert(text::texts(ids@).to_set() =~= Set::<Seq<char>>::empty());
                assert(self.schedule_table() =~= self.schedule_table().remove_keys(
                    text::texts(ids@).to_set(),
                ));
            }
            return Ok(());
        }
        let sql: String = delete_statement(ids.len());
        written(delete_schedules(&mut self.conn, sql.as_str(), ids))
    }

    /// All schedules, in any order.
    pub fn find_schedules(&self) -> (r: Result<ScheduleListing, StoreError>)
        ensures
            r matches Ok(l) ==> (self.private() ==> {
                &&& forall|i: int|
                    0 <= i < l.entries@.len() ==> self.schedule((#[trigger] l.entries@[i]).id@)
                        == Some(l.entries@[i]@)
                &&& forall|i: int, j: int|
                    0 <= i < j < l.entries@.len() ==> (#[trigger] l.entries@[i]).id@ != (
                    #[trigger] l.entries@[j]).id@
                &&& l.unreadable == 0 ==> forall|k: Seq<char>| #[trigger]
                    self.schedule(k) is Some ==> exists|i: int|
                        0 <= i < l.entries@.len() && (#[trigger] l.entries@[i]).id@ == k
            }),
            r matches Err(e) ==> e is Sql,
    {
        let rows: Result<Vec<ScheduleItem>, rusqlite::Error> = select_schedules(&self.conn);
        let ghost all = rows->Ok_0@;
        let l: ScheduleListing = match schedules_read(rows) {
            Ok(l) => l,
            Err(e) => {
                return Err(e);
            },
        };
        proof {
            let keep = |t: ScheduleItem| is_schedule(t);
            let read = |t: ScheduleItem| is_read(t);
            let from = picked(all, keep);
            lemma_picked(all, keep);
            lemma_picked(all, read);
            assert(schedule::entry_views(l.entries@).len() == l.entries@.len());
            assert forall|n: int| 0 <= n < l.entries@.len() implies is_schedule(
                all[#[trigger] from[n]],
            ) && l.entries@[n]@ == schedule_of_item(all[from[n]]) by {
                assert(schedule::entry_views(l.entries@)[n] == schedules_of_items(all)[n]);
                assert(keep(all[from[n]]));
            }
            if self.private() {
                assert forall|i: int| 0 <= i < l.entries@.len() implies self.schedule(
                    (#[trigger] l.entries@[i]).id@,
                ) == Some(l.entries@[i]@) by {
                    assert(is_schedule(all[from[i]]));
                }
                assert forall|i: int, j: int| 0 <= i < j < l.entries@.len() implies (
                #[trigger] l.entries@[i]).id@ != (#[trigger] l.entries@[j]).id@ by {
                    assert(from[i] < from[j]);
                    assert(is_schedule(all[from[j]]) && is_schedule(all[from[i]]));
                }
                if l.unreadable == 0 {
                    lemma_all_picked(all, read);
                    assert forall|k: Seq<char>| #[trigger] self.schedule(k) is Some implies exists|
                        i: int,
                    | 0 <= i < l.entries@.len() && (#[trigger] l.entries@[i]).id@ == k by {
                        assert(schedule_rows(self.conn).contains_key(k));
                        assert forall|i: int| 0 <= i < all.len() implies #[trigger] all[i] is Ok by {
                            assert(read(all[i]));
                        }
                        let i = choose|i: int| 0 <= i < all.len() && (#[trigger] all[i])->Ok_0.0@ == k;
                        assert(all[i] is Ok);
                        assert(keep(all[i]));
                        let n = choose|n: int| 0 <= n < from.len() && from[n] == i;
                        assert(l.entries@[n].id@ == k);
                    }
                }
            }
        }
        Ok(l)
    }

    /// All schedules, in any order; those that cannot be read are left out.
    pub fn list_all_schedules(&self) -> (r: Vec<ScheduleEntry>)
        ensures
            self.private() ==> forall|i: int|
                0 <= i < r@.len() ==> self.schedule((#[trigger] r@[i]).id@) == Some(r@[i]@),
            self.private() ==> forall|i: int, j: int|
                0 <= i < j < r@.len() ==> (#[trigger] r@[i]).id@ != (#[trigger] r@[j]).id@,
    {
        match self.find_schedules() {
            Ok(l) => l.entries,
            Err(_) => Vec::new(),
        }
    }

    /// The schedules of a conversation, in any order.
    pub fn list_schedules(&self, key: &SessionKey) -> (r: Vec<ScheduleEntry>)
        ensures
            forall|i: int| 0 <= i < r@.len() ==> (#[trigger] r@[i]).key@ == key@,
            self.private() ==> forall|i: int|
                0 <= i < r@.len() ==> self.schedule((#[trigger] r@[i]).id@) == Some(r@[i]@),
    {
        owned_by(self.list_all_schedules(), key)
    }
}

/// The entries of a conversation, in order.
pub open spec fn of_key(v: Seq<ScheduleEntry>, key: Seq<char>) -> Seq<ScheduleEntry>
    decreases v.len(),
{
    if v.len() == 0 {
        v
    } else if v[0].key@ == key {
        seq![v[0]] + of_key(v.drop_first(), key)
    } else {
        of_key(v.drop_first(), key)
    }
}

proof fn lemma_of_key(v: Seq<ScheduleEntry>, key: Seq<char>)
    ensures
        forall|i: int|
            0 <= i < of_key(v, key).len() ==> (#[trigger] of_key(v, key)[i]).key@ == key
                && v.contains(of_key(v, key)[i]),
    decreases v.len(),
{
    if v.len() > 0 {
        let t = v.drop_first();
        lemma_of_key(t, key);
        let r = of_key(v, key);
        assert forall|i: int| 0 <= i < r.len() implies (#[trigger] r[i]).key@ == key && v.contains(
            r[i],
        ) by {
            let (tail, k) = if v[0].key@ == key {
                (of_key(t, key), i - 1)
            } else {
                (of_key(t, key), i)
            };
            if v[0].key@ == key && i == 0 {
                assert(v[0] == r[0]);
            } else {
                assert(r[i] == tail[k]);
                let n = choose|n: int| 0 <= n < t.len() && t[n] == tail[k];
                assert(v[n + 1] == r[i]);
            }
        }
    }
}

/// The entries of a conversation, in order.
pub fn owned_by(v: Vec<ScheduleEntry>, key: &SessionKey) -> (r: Vec<ScheduleEntry>)
    ensures
        r@ == of_key(v@, key@),
        forall|i: int|
            0 <= i < r@.len() ==> (#[trigger] r@[i]).key@ == key@ && v@.contains(r@[i]),
{
    let ghost all = v@;
    let mut rest: Vec<ScheduleEntry> = v;
    let mut out: Vec<ScheduleEntry> = Vec::new();
    assert(out@ + of_key(rest@, key@) =~= of_key(all, key@));
    while rest.len() > 0
        invariant
            out@ + of_key(rest@, key@) == of_key(all, key@),
        decreases rest@.len(),
    {
        let ghost tail = rest@.drop_first();
        let ghost kept = out@;
        let e: ScheduleEntry = rest.remove(0);
        assert(rest@ =~= tail);
        if text::same(e.key.0.as_str(), key.0.as_str()) {
            out.push(e);
            assert(out@ + of_key(tail, key@) =~= kept + (seq![e] + of_key(tail, key@)));
        }
    }
    assert(out@ + of_key(rest@, key@) =~= out@);
    proof {
        lemma_of_key(all, key@);
    }
    out
}

/// The statement that deletes `n` schedules by id.
fn delete_statement(n: usize) -> (r: String)
    ensures
        r@ == delete_sql(n as nat),
{
    let mut marks: Vec<String> = Vec::new();
    let mut i: usize = 0;
    while i < n
        invariant
            i <= n,
            marks@.len() == i,
            forall|j: int|
                0 <= j < i ==> (#[trigger] marks@[j])@ == "?"@ + text::decimal((j + 1) as nat),
        decreases n - i,
    {
        marks.push(text::concat2("?", text::decimal_text(i as u64 + 1).as_str()));
        i = i + 1;
    }
    let ghost wanted = Seq::new(n as nat, |i: int| "?"@ + text::decimal((i + 1) as nat));
    assert(text::texts(marks@) =~= wanted);
    text::concat3(
        "DELETE FROM schedules WHERE id IN (",
        text::joined(&marks, ",").as_str(),
        ")",
    )
}

/// Each column of a row holds what its name says, and is read from there again.
pub proof fn rows_keep_their_columns(id: Seq<char>, e: schedule::ScheduleEntryView, row: ScheduleRow)
    ensures
        row_of_schedule(e).0 == e.key,
        row_of_schedule(e).1 == e.prompt,
        row_of_schedule(e).2 == json::rendered(codec::ctx_json(e.reply_ctx)),
        row_of_schedule(e).3 == json::rendered(codec::kind_json(e.schedule)),
        row_of_schedule(e).4 == e.created_at_ms,
        row_of_schedule(e).5 == e.last_fired_ms,
        schedule_of_row(id, row) matches Some(r) ==> r.id == id && r.key == row.0 && r.prompt
            == row.1 && r.created_at_ms == row.4 && r.last_fired_ms == row.5 && (json::parsed(row.2)
            matches Some(c) && codec::ctx_from(c) == Some(r.reply_ctx)) && (json::parsed(row.3)
            matches Some(k) && codec::kind_from(k) == Some(r.schedule)),
{
}

/// A schedule is removed for the conversation that it belongs to, and for no other.
pub proof fn only_the_owner_removes(
    m: Map<Seq<char>, ScheduleRow>,
    id: Seq<char>,
    key: Seq<char>,
    e: schedule::ScheduleEntryView,
)
    requires
        m.contains_key(id),
        schedule_of_row(id, m[id]) == Some(e),
    ensures
        e.key == key ==> !without_owned(m, id, key).contains_key(id),
        e.key != key ==> without_owned(m, id, key) == m,
        forall|k: Seq<char>|
            k != id && m.contains_key(k) ==> #[trigger] without_owned(m, id, key).contains_key(k)
                && without_owned(m, id, key)[k] == m[k],
{
}

/// A row that was moved on is the same but for its schedule and its last time.
pub proof fn moved_row_is_otherwise_the_same(
    m: Map<Seq<char>, ScheduleRow>,
    id: Seq<char>,
    fired: i64,
    kind: Seq<char>,
)
    requires
        m.contains_key(id),
    ensures
        ({
            let n = with_fired(m, id, fired, kind);
            &&& n.contains_key(id)
            &&& n[id] == (m[id].0, m[id].1, m[id].2, kind, m[id].4, Some(fired))
            &&& forall|k: Seq<char>| k != id && m.contains_key(k) ==> #[trigger] n.contains_key(k)
                && n[k] == m[k]
        }),
{
}

/// Every row that can be read is listed once, in the order of the rows.
pub proof fn readable_rows_are_listed(v: Seq<SessionItem>, i: int)
    requires
        0 <= i < v.len(),
        v[i] is Ok,
    ensures
        sessions_of_items(v).contains(
            (v[i]->Ok_0.0@, entry_of_row((v[i]->Ok_0.1@, text::opt_text(v[i]->Ok_0.2), v[i]->Ok_0.3@))),
        ),
        sessions_of_items(v).len() <= v.len(),
{
    let keep = |t: SessionItem| is_read(t);
    lemma_picked(v, keep);
    let at = picked(v, keep);
    assert(keep(v[i]));
    let n = choose|n: int| 0 <= n < at.len() && at[n] == i;
    assert(sessions_of_items(v)[n] == session_of_item(v[at[n]]));
}

/// A row of a conversation holds the agent, the session and the history, and is read
/// so again.
pub proof fn session_rows_keep_their_columns(
    agent: Seq<char>,
    active: Option<Seq<char>>,
    text: Seq<char>,
    past: Seq<(Seq<char>, Seq<char>)>,
    e: registry::RegistryView,
)
    ensures
        entry_of_row((agent, active, text)).agent == agent,
        entry_of_row((agent, active, text)).active == active,
        past_from(text) == Some(past) ==> entry_of_row((agent, active, text)).past == past,
        past_from(text) is None ==> entry_of_row((agent, active, text)).past.len() == 0,
        row_of_entry(e) == (e.agent, e.active, past_text(e.past)),
{
}

/// The schedules of a conversation are all those of its key, in their order.
pub proof fn schedules_of_a_key_are_all_of_it(v: Seq<ScheduleEntry>, key: Seq<char>, e: ScheduleEntry)
    ensures
        e.key@ == key ==> of_key(v.push(e), key) == of_key(v, key).push(e),
        e.key@ != key ==> of_key(v.push(e), key) == of_key(v, key),
        of_key(Seq::empty(), key).len() == 0,
    decreases v.len(),
{
    let w = v.push(e);
    if v.len() == 0 {
        assert(w.drop_first() =~= Seq::<ScheduleEntry>::empty());
        assert(of_key(w.drop_first(), key) =~= Seq::<ScheduleEntry>::empty());
        assert(v =~= Seq::<ScheduleEntry>::empty());
        assert(seq![e] + Seq::<ScheduleEntry>::empty() =~= v.push(e));
    } else {
        let t = v.drop_first();
        schedules_of_a_key_are_all_of_it(t, key, e);
        assert(w.drop_first() =~= t.push(e));
        assert(w[0] == v[0]);
        if v[0].key@ == key {
            assert(of_key(w, key) == seq![v[0]] + of_key(t.push(e), key));
            assert(seq![v[0]] + of_key(t, key).push(e) =~= (seq![v[0]] + of_key(t, key)).push(e));
        }
    }
}

/// The statement that drops schedules has one numbered place for each, counted from
/// one.
pub proof fn statement_has_a_place_for_each(n: nat)
    ensures
        delete_sql(1) == "DELETE FROM schedules WHERE id IN ("@ + ("?"@ + text::decimal(1)) + ")"@,
        n > 0 ==> text::join(
            Seq::new((n + 1) as nat, |i: int| "?"@ + text::decimal((i + 1) as nat)),
            ","@,
        ) == text::join(Seq::new(n, |i: int| "?"@ + text::decimal((i + 1) as nat)), ","@) + ","@ + (
        "?"@ + text::decimal((n + 1) as nat)),
        SCHEMA_VERSION == 1,
{
    let one = Seq::new(1, |i: int| "?"@ + text::decimal((i + 1) as nat));
    assert(one =~= seq!["?"@ + text::decimal(1)]);
    assert(text::join(one, ","@) == "?"@ + text::decimal(1));
    if n > 0 {
        let a = Seq::new((n + 1) as nat, |i: int| "?"@ + text::decimal((i + 1) as nat));
        let b = Seq::new(n, |i: int| "?"@ + text::decimal((i + 1) as nat));
        assert(a.drop_last() =~= b);
    }
}

} // verus!
