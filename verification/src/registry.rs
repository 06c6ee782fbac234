//! What is remembered of each conversation: its agent, the session id under
//! which it goes on, and the ids it had before.

use vstd::prelude::*;
use vstd::string::*;

use crate::store;
use crate::store::{StateDb, StoreError};
use crate::text;
use crate::types;
use crate::types::SessionKey;

verus! {

/// What is remembered of a conversation.
#[derive(Debug, PartialEq, Eq)]
pub struct RegistryEntry {
    pub agent: String,
    pub active_session_id: Option<String>,
    /// Earlier sessions, as agent and session id, oldest first.
    pub past_agent_session_ids: Vec<(String, String)>,
}

pub struct RegistryView {
    pub agent: Seq<char>,
    pub active: Option<Seq<char>>,
    pub past: Seq<(Seq<char>, Seq<char>)>,
}

impl View for RegistryEntry {
    type V = RegistryView;

    open spec fn view(&self) -> RegistryView {
        RegistryView {
            agent: self.agent@,
            active: text::opt_text(self.active_session_id),
            past: text::pair_texts(self.past_agent_session_ids@),
        }
    }
}

/// A conversation of which nothing is known.
pub open spec fn unknown() -> RegistryView {
    RegistryView { agent: Seq::empty(), active: None, past: Seq::empty() }
}

impl Default for RegistryEntry {
    fn default() -> (r: RegistryEntry)
        ensures
            r@ == unknown(),
    {
        let agent: String = String::new();
        let past: Vec<(String, String)> = Vec::new();
        assert(agent@ =~= Seq::<char>::empty());
        assert(text::pair_texts(past@) =~= Seq::<(Seq<char>, Seq<char>)>::empty());
        RegistryEntry { agent, active_session_id: None, past_agent_session_ids: past }
    }
}

impl RegistryView {
    /// The conversation goes on with `agent` under the session id `id`. Another
    /// session that was active moves into the history.
    pub open spec fn recorded(self, agent: Seq<char>, id: Seq<char>) -> RegistryView {
        let past = match self.active {
            Some(prev) => if self.agent.len() > 0 && (self.agent != agent || prev != id) {
                self.past.push((self.agent, prev))
            } else {
                self.past
            },
            None => self.past,
        };
        RegistryView { agent, active: Some(id), past }
    }

    /// The active session moves into the history.
    pub open spec fn archived(self) -> RegistryView {
        match self.active {
            Some(id) => RegistryView {
                active: None,
                past: self.past.push((self.agent, id)),
                ..self
            },
            None => self,
        }
    }

    /// The conversation goes on with `agent`. A session of another agent moves
    /// into the history.
    pub open spec fn with_agent(self, agent: Seq<char>) -> RegistryView {
        if self.agent.len() > 0 && self.agent != agent {
            RegistryView { agent, ..self.archived() }
        } else {
            RegistryView { agent, ..self }
        }
    }
}

fn push_pair(v: &mut Vec<(String, String)>, a: String, b: String)
    ensures
        text::pair_texts(final(v)@) == text::pair_texts(old(v)@).push((a@, b@)),
{
    let ghost before = v@;
    v.push((a, b));
    assert(text::pair_texts(v@) =~= text::pair_texts(before).push((a@, b@)));
}

impl RegistryEntry {
    /// The conversation goes on with `agent` under the session id `id`.
    pub fn record(self, agent: String, id: String) -> (r: RegistryEntry)
        ensures
            r@ == self@.recorded(agent@, id@),
    {
        let mut past: Vec<(String, String)> = self.past_agent_session_ids;
        match self.active_session_id {
            Some(prev) => {
                if self.agent.as_str().unicode_len() > 0 && (!text::same(
                    self.agent.as_str(),
                    agent.as_str(),
                ) || !text::same(prev.as_str(), id.as_str())) {
                    push_pair(&mut past, self.agent, prev);
                }
            },
            None => {},
        }
        RegistryEntry { agent, active_session_id: Some(id), past_agent_session_ids: past }
    }

    /// The active session moves into the history.
    pub fn archive(self) -> (r: RegistryEntry)
        ensures
            r@ == self@.archived(),
    {
        let mut past: Vec<(String, String)> = self.past_agent_session_ids;
        match self.active_session_id {
            Some(id) => {
                push_pair(&mut past, self.agent.clone(), id);
            },
            None => {},
        }
        RegistryEntry { agent: self.agent, active_session_id: None, past_agent_session_ids: past }
    }

    /// The conversation goes on with `agent`.
    pub fn switch(self, agent: String) -> (r: RegistryEntry)
        ensures
            r@ == self@.with_agent(agent@),
    {
        if self.agent.as_str().unicode_len() > 0 && !text::same(
            self.agent.as_str(),
            agent.as_str(),
        ) {
            let old: RegistryEntry = self.archive();
            RegistryEntry {
                agent,
                active_session_id: old.active_session_id,
                past_agent_session_ids: old.past_agent_session_ids,
            }
        } else {
            RegistryEntry {
                agent,
                active_session_id: self.active_session_id,
                past_agent_session_ids: self.past_agent_session_ids,
            }
        }
    }
}

// ── The registry ────────────────────────────────────────────────────────

/// The conversations in a store.
pub struct SessionRegistry {
    db: StateDb,
}

/// The conversation of `key` became `e`, and nothing else changed.
pub open spec fn became(before: StateDb, after: StateDb, key: Seq<char>, e: RegistryView) -> bool {
    after.session(key) == Some(e) && before.only_session_changed(after, key)
}

/// The change that stores `e` as the conversation of `key`.
pub open spec fn put(key: Seq<char>, e: RegistryView) -> store::Request {
    store::Request::PutSession { key, session: store::row_of_entry(e) }
}

/// From `before` to `after` the database was asked to store `e` as the
/// conversation of `key`, and did so where `stored`.
pub open spec fn stores(
    before: StateDb,
    after: StateDb,
    key: Seq<char>,
    e: RegistryView,
    stored: bool,
) -> bool {
    &&& after.asked() == before.asked().push(put(key, e))
    &&& before.private() && stored ==> became(before, after, key, e)
    &&& before.private() && !stored ==> before.unchanged(after)
}

/// What a conversation is taken to be: as it was read, or else nothing.
pub open spec fn taken(read: Option<RegistryEntry>) -> RegistryView {
    match read {
        Some(e) => e@,
        None => unknown(),
    }
}

/// How the change of a conversation went: whether the store answered when it was
/// asked what it knows, and whether it took the change. Where it did not answer,
/// the conversation was taken to be unknown.
#[derive(Clone, Copy, Debug, PartialEq, Eq, Structural)]
pub struct Outcome {
    pub read: bool,
    pub stored: bool,
}

/// The store said `read` of a conversation: what it knows, where it answered, or
/// else nothing.
pub open spec fn reads(
    db: StateDb,
    key: Seq<char>,
    read: Option<RegistryEntry>,
    answered: bool,
) -> bool {
    if answered {
        db.private() ==> match read {
            Some(e) => db.session(key) == Some(e@),
            None => db.session(key) is None,
        }
    } else {
        read is None
    }
}

/// The active session of a conversation that was read as `read` was to move into
/// the history, and did where `stored`; nothing was asked where none was read.
pub open spec fn archives(
    before: StateDb,
    after: StateDb,
    key: Seq<char>,
    read: Option<RegistryEntry>,
    stored: bool,
) -> bool {
    match read {
        Some(e) => stores(before, after, key, e@.archived(), stored),
        None => !stored && after == before,
    }
}

/// A conversation that goes over to `agent`: its session, if it has one, is
/// archived first.
pub open spec fn switched(e: RegistryView, agent: Seq<char>) -> RegistryView {
    e.archived().with_agent(agent)
}

/// The conversation of `key` was to go on with `agent` under the session id
/// `id`.
pub open spec fn records(
    before: StateDb,
    after: StateDb,
    key: Seq<char>,
    agent: Seq<char>,
    id: Seq<char>,
    out: Outcome,
) -> bool {
    exists|read: Option<RegistryEntry>| #[trigger]
        reads(before, key, read, out.read) && stores(
            before,
            after,
            key,
            taken(read).recorded(agent, id),
            out.stored,
        )
}

/// The active session of the conversation of `key` was to move into the history.
pub open spec fn clears(
    before: StateDb,
    after: StateDb,
    key: Seq<char>,
    out: Outcome,
) -> bool {
    exists|read: Option<RegistryEntry>| #[trigger]
        reads(before, key, read, out.read) && archives(before, after, key, read, out.stored)
}

/// The conversation of `key` was to go on with `agent`.
pub open spec fn assigns(
    before: StateDb,
    after: StateDb,
    key: Seq<char>,
    agent: Seq<char>,
    out: Outcome,
) -> bool {
    exists|read: Option<RegistryEntry>| #[trigger]
        reads(before, key, read, out.read) && stores(
            before,
            after,
            key,
            taken(read).with_agent(agent),
            out.stored,
        )
}

/// The conversation of `key` was to go over to `agent`.
pub open spec fn switches(
    before: StateDb,
    after: StateDb,
    key: Seq<char>,
    agent: Seq<char>,
    out: Outcome,
) -> bool {
    exists|read: Option<RegistryEntry>| #[trigger]
        reads(before, key, read, out.read) && stores(
            before,
            after,
            key,
            switched(taken(read), agent),
            out.stored,
        )
}

/// A turn of a conversation that was read as `read` has ended under the session
/// id `id`: a known conversation was to go on under it.
pub open spec fn finished(
    before: StateDb,
    after: StateDb,
    key: Seq<char>,
    read: Option<RegistryEntry>,
    id: Seq<char>,
    stored: bool,
) -> bool {
    match read {
        Some(e) => stores(before, after, key, e@.recorded(e@.agent, id), stored),
        None => !stored && after == before,
    }
}

/// A turn of the conversation of `key` has ended under the session id `id`.
pub open spec fn finishes(
    before: StateDb,
    after: StateDb,
    key: Seq<char>,
    id: Seq<char>,
    out: Outcome,
) -> bool {
    exists|read: Option<RegistryEntry>| #[trigger]
        reads(before, key, read, out.read) && finished(before, after, key, read, id, out.stored)
}

/// The agent of a conversation as it was read.
pub open spec fn agent_in(read: Option<RegistryEntry>) -> Option<Seq<char>> {
    match read {
        Some(e) => Some(e.agent@),
        None => None,
    }
}

/// The agent of a conversation as it was read.
pub fn agent_read(read: &Option<RegistryEntry>) -> (r: Option<String>)
    ensures
        text::opt_text(r) == agent_in(*read),
{
    match read {
        Some(e) => Some(e.agent.clone()),
        None => None,
    }
}

/// The session id under which a conversation goes on, as it was read.
pub open spec fn active_in(read: Option<RegistryEntry>) -> Option<Seq<char>> {
    match read {
        Some(e) => text::opt_text(e.active_session_id),
        None => None,
    }
}

/// The session id under which a conversation goes on, as it was read.
pub fn active_read(read: &Option<RegistryEntry>) -> (r: Option<String>)
    ensures
        text::opt_text(r) == active_in(*read),
{
    match read {
        Some(e) => types::copy_opt(&e.active_session_id),
        None => None,
    }
}

impl SessionRegistry {
    /// The store behind the registry.
    pub closed spec fn store(self) -> StateDb {
        self.db
    }

    pub fn new(db: StateDb) -> (r: SessionRegistry)
        ensures
            r.store() == db,
    {
        SessionRegistry { db }
    }

    /// A registry of a new store in memory.
    pub fn in_memory() -> (r: Result<SessionRegistry, StoreError>)
        ensures
            r matches Ok(reg) ==> reg.store().private() && forall|k: Seq<char>| #[trigger]
                reg.store().session(k) is None,
    {
        match StateDb::in_memory() {
            Ok(db) => Ok(SessionRegistry { db }),
            Err(e) => Err(e),
        }
    }

    pub fn db(&self) -> (r: &StateDb)
        ensures
            *r == self.store(),
    {
        &self.db
    }

    pub fn db_mut(&mut self) -> (r: &mut StateDb)
        ensures
            *r == old(self).store(),
            *final(r) == final(self).store(),
    {
        &mut self.db
    }

    /// What is known of a conversation.
    pub fn get_session(&self, key: &SessionKey) -> (r: Option<RegistryEntry>)
        ensures
            r matches Some(e) ==> (self.store().private() ==> self.store().session(key@) == Some(
                e@,
            )),
    {
        self.db.get_session(key)
    }

    /// What is known of a conversation, and whether the store answered.
    pub fn look_up(&self, key: &SessionKey) -> (r: (Option<RegistryEntry>, bool))
        ensures
            reads(self.store(), key@, r.0, r.1),
    {
        match self.db.find_session(key) {
            Ok(e) => (e, true),
            Err(_) => (None, false),
        }
    }

    /// The agent of a conversation.
    pub fn agent_for(&self, key: &SessionKey) -> (r: Option<String>)
        ensures
            exists|read: Option<RegistryEntry>, answered: bool| #[trigger]
                reads(self.store(), key@, read, answered) && text::opt_text(r) == agent_in(read),
    {
        let (read, answered): (Option<RegistryEntry>, bool) = self.look_up(key);
        assert(reads(self.store(), key@, read, answered));
        agent_read(&read)
    }

    /// The session id under which a conversation goes on.
    pub fn last_session_id(&self, key: &SessionKey) -> (r: Option<String>)
        ensures
            exists|read: Option<RegistryEntry>, answered: bool| #[trigger]
                reads(self.store(), key@, read, answered) && text::opt_text(r) == active_in(read),
    {
        let (read, answered): (Option<RegistryEntry>, bool) = self.look_up(key);
        assert(reads(self.store(), key@, read, answered));
        active_read(&read)
    }

    /// A conversation that was read as `read` goes on with `agent` under the
    /// session id `session_id`. The result says whether that was stored.
    pub fn record_read(
        &mut self,
        key: &SessionKey,
        read: Option<RegistryEntry>,
        agent: String,
        session_id: String,
    ) -> (stored: bool)
        ensures
            stores(
                old(self).store(),
                final(self).store(),
                key@,
                taken(read).recorded(agent@, session_id@),
                stored,
            ),
    {
        let entry: RegistryEntry = match read {
            Some(e) => e,
            None => RegistryEntry::default(),
        };
        let next: RegistryEntry = entry.record(agent, session_id);
        self.db.upsert_session(key, &next).is_ok()
    }

    /// A conversation goes on with `agent` under the session id `session_id`.
    /// Where the store refuses, nothing changes.
    pub fn record_session(&mut self, key: SessionKey, agent: String, session_id: String) -> (out:
        Outcome)
        ensures
            records(
                old(self).store(),
                final(self).store(),
                key@,
                agent@,
                session_id@,
                out,
            ),
    {
        let (entry, read): (Option<RegistryEntry>, bool) = self.look_up(&key);
        let ghost known = entry;
        let stored: bool = self.record_read(&key, entry, agent, session_id);
        let out: Outcome = Outcome { read, stored };
        assert(reads(old(self).store(), key@, known, out.read));
        out
    }

    /// The active session of a conversation that was read as `read` moves into
    /// the history; nothing is done where none was read. The result says whether
    /// that was stored.
    pub fn archive_read(&mut self, key: &SessionKey, read: Option<RegistryEntry>) -> (stored: bool)
        ensures
            archives(old(self).store(), final(self).store(), key@, read, stored),
    {
        match read {
            Some(entry) => {
                let next: RegistryEntry = entry.archive();
                self.db.upsert_session(key, &next).is_ok()
            },
            None => false,
        }
    }

    /// The active session of a conversation moves into the history. Where the
    /// store refuses or the conversation is unknown, nothing changes.
    pub fn clear_active(&mut self, key: &SessionKey) -> (out: Outcome)
        ensures
            clears(old(self).store(), final(self).store(), key@, out),
    {
        let (entry, read): (Option<RegistryEntry>, bool) = self.look_up(key);
        let ghost known = entry;
        let stored: bool = self.archive_read(key, entry);
        let out: Outcome = Outcome { read, stored };
        assert(reads(old(self).store(), key@, known, out.read));
        out
    }

    /// A conversation is forgotten. Where the store refuses, nothing changes;
    /// the result says which.
    pub fn clear_all(&mut self, key: &SessionKey) -> (stored: bool)
        ensures
            old(self).store().private() && !stored ==> old(self).store().unchanged(
                final(self).store(),
            ),
            old(self).store().private() && stored ==> final(self).store().session(key@) is None
                && old(self).store().only_session_changed(final(self).store(), key@),
            final(self).store().asked() == old(self).store().asked().push(
                store::Request::DropSession { key: key@ },
            ),
    {
        self.db.remove_session(key).is_ok()
    }

    /// All conversations, in any order.
    pub fn entries(&self) -> (r: Vec<(SessionKey, RegistryEntry)>)
        ensures
            self.store().private() ==> forall|i: int|
                0 <= i < r@.len() ==> self.store().session((#[trigger] r@[i]).0@) == Some(r@[i].1@),
            self.store().private() ==> forall|i: int, j: int|
                0 <= i < j < r@.len() ==> (#[trigger] r@[i]).0@ != (#[trigger] r@[j]).0@,
    {
        self.db.all_sessions()
    }

    /// A conversation that was read as `read` goes on with `agent`. The result
    /// says whether that was stored.
    pub fn assign_read(
        &mut self,
        key: &SessionKey,
        read: Option<RegistryEntry>,
        agent: String,
    ) -> (stored: bool)
        ensures
            stores(
                old(self).store(),
                final(self).store(),
                key@,
                taken(read).with_agent(agent@),
                stored,
            ),
    {
        let entry: RegistryEntry = match read {
            Some(e) => e,
            None => RegistryEntry::default(),
        };
        let next: RegistryEntry = entry.switch(agent);
        self.db.upsert_session(key, &next).is_ok()
    }

    /// A conversation that was read as `read` goes over to `agent`: its session
    /// is archived. The result says whether that was stored.
    pub fn switch_read(
        &mut self,
        key: &SessionKey,
        read: Option<RegistryEntry>,
        agent: String,
    ) -> (stored: bool)
        ensures
            stores(
                old(self).store(),
                final(self).store(),
                key@,
                switched(taken(read), agent@),
                stored,
            ),
    {
        let entry: RegistryEntry = match read {
            Some(e) => e,
            None => RegistryEntry::default(),
        };
        let next: RegistryEntry = entry.archive().switch(agent);
        self.db.upsert_session(key, &next).is_ok()
    }

    /// A conversation goes on with `agent`. Where the store refuses, nothing
    /// changes.
    pub fn set_agent(&mut self, key: SessionKey, agent: String) -> (out: Outcome)
        ensures
            assigns(old(self).store(), final(self).store(), key@, agent@, out),
    {
        let (entry, read): (Option<RegistryEntry>, bool) = self.look_up(&key);
        let ghost known = entry;
        let stored: bool = self.assign_read(&key, entry, agent);
        let out: Outcome = Outcome { read, stored };
        assert(reads(old(self).store(), key@, known, out.read));
        out
    }

    /// A turn of a conversation that was read as `read` has ended: it goes on
    /// with its agent under the session id that the agent reported; nothing is
    /// done where none was read. The result says whether that was stored.
    pub fn finish_read(
        &mut self,
        key: &SessionKey,
        read: Option<RegistryEntry>,
        session_id: String,
    ) -> (stored: bool)
        ensures
            finished(
                old(self).store(),
                final(self).store(),
                key@,
                read,
                session_id@,
                stored,
            ),
    {
        match read {
            Some(entry) => {
                let agent: String = entry.agent.clone();
                let next: RegistryEntry = entry.record(agent, session_id);
                self.db.upsert_session(key, &next).is_ok()
            },
            None => false,
        }
    }

    /// A turn has ended: a known conversation goes on with its agent under the
    /// session id that the agent reported.
    pub fn finish_turn(&mut self, key: &SessionKey, session_id: String) -> (out: Outcome)
        ensures
            finishes(old(self).store(), final(self).store(), key@, session_id@, out),
    {
        let (entry, read): (Option<RegistryEntry>, bool) = self.look_up(key);
        let ghost known = entry;
        let stored: bool = self.finish_read(key, entry, session_id);
        let out: Outcome = Outcome { read, stored };
        assert(reads(old(self).store(), key@, known, out.read));
        out
    }
}

// ── Laws ────────────────────────────────────────────────────────────────

/// Recording the same session again changes nothing.
pub proof fn recording_twice_is_recording_once(e: RegistryView, agent: Seq<char>, id: Seq<char>)
    ensures
        e.recorded(agent, id).recorded(agent, id) == e.recorded(agent, id),
{
}

/// The history only grows, at its end.
pub proof fn history_only_grows(e: RegistryView, agent: Seq<char>, id: Seq<char>)
    ensures
        e.past.is_prefix_of(e.recorded(agent, id).past),
        e.past.is_prefix_of(e.archived().past),
        e.past.is_prefix_of(e.with_agent(agent).past),
{
}

/// No session is lost: one that stops being the active one is in the history,
/// as long as its agent has a name.
pub proof fn replaced_session_is_in_the_history(
    e: RegistryView,
    prev: Seq<char>,
    agent: Seq<char>,
    id: Seq<char>,
)
    requires
        e.active == Some(prev),
        e.agent.len() > 0,
    ensures
        (e.agent, prev) != (agent, id) ==> e.recorded(agent, id).past.last() == (e.agent, prev),
        e.archived().past.last() == (e.agent, prev),
        e.agent != agent ==> e.with_agent(agent).past.last() == (e.agent, prev),
{
}

/// Choosing the agent that a conversation has already changes nothing.
pub proof fn same_agent_changes_nothing(e: RegistryView)
    ensures
        e.with_agent(e.agent) == e,
{
}

/// Switching agents, as the engine does it, leaves the new agent without an
/// active session and the old session in the history.
pub proof fn switching_agents_archives(e: RegistryView, agent: Seq<char>)
    ensures
        e.archived().with_agent(agent).agent == agent,
        e.archived().with_agent(agent).active is None,
        e.active matches Some(id) ==> e.archived().with_agent(agent).past == e.past.push(
            (e.agent, id),
        ),
{
}

/// What a store holds of a conversation, or nothing.
pub open spec fn held(db: StateDb, key: Seq<char>) -> RegistryView {
    match db.session(key) {
        Some(e) => e,
        None => unknown(),
    }
}

/// A conversation that was recorded is read back with its agent and session id;
/// the session it had before is at the end of its history, unless it had none,
/// it is the same one, or its agent has no name. No other conversation changed.
pub proof fn recorded_conversation_reads_back(
    before: StateDb,
    after: StateDb,
    key: Seq<char>,
    agent: Seq<char>,
    id: Seq<char>,
    out: Outcome,
)
    requires
        before.private(),
        records(before, after, key, agent, id, out),
        out.read,
        out.stored,
    ensures
        ({
            let o = held(before, key);
            let past = match o.active {
                Some(p) => if o.agent.len() > 0 && (o.agent, p) != (agent, id) {
                    o.past.push((o.agent, p))
                } else {
                    o.past
                },
                None => o.past,
            };
            after.session(key) == Some(RegistryView { agent, active: Some(id), past })
        }),
        forall|k: Seq<char>| k != key ==> #[trigger] after.session(k) == before.session(k),
{
}

/// A conversation that was archived is read back with its agent, without an
/// active session, and with the session it had at the end of its history; an
/// unknown one is still unknown. No other conversation changed.
pub proof fn archived_conversation_reads_back(
    before: StateDb,
    after: StateDb,
    key: Seq<char>,
    out: Outcome,
)
    requires
        before.private(),
        clears(before, after, key, out),
        out.read,
        before.session(key) is Some ==> out.stored,
    ensures
        after.private(),
        match before.session(key) {
            Some(o) => {
                let past = match o.active {
                    Some(id) => o.past.push((o.agent, id)),
                    None => o.past,
                };
                after.session(key) == Some(RegistryView { agent: o.agent, active: None, past })
            },
            None => after.session(key) is None,
        },
        forall|k: Seq<char>| k != key ==> #[trigger] after.session(k) == before.session(k),
{
}

/// Archiving a conversation a second time changes nothing.
pub proof fn archiving_twice_is_archiving_once(
    before: StateDb,
    once: StateDb,
    twice: StateDb,
    key: Seq<char>,
    first: Outcome,
    second: Outcome,
)
    requires
        before.private(),
        clears(before, once, key, first),
        first.read,
        before.session(key) is Some ==> first.stored,
        clears(once, twice, key, second),
        second.read,
        once.session(key) is Some ==> second.stored,
    ensures
        forall|k: Seq<char>| #[trigger] twice.session(k) == once.session(k),
{
    archived_conversation_reads_back(before, once, key, first);
    archived_conversation_reads_back(once, twice, key, second);
}

/// A conversation that went over to another agent is read back with that agent,
/// without an active session, and with the session it had at the end of its
/// history. No other conversation changed.
pub proof fn switched_conversation_reads_back(
    before: StateDb,
    after: StateDb,
    key: Seq<char>,
    agent: Seq<char>,
    out: Outcome,
)
    requires
        before.private(),
        switches(before, after, key, agent, out),
        out.read,
        out.stored,
    ensures
        ({
            let o = held(before, key);
            let past = match o.active {
                Some(id) => o.past.push((o.agent, id)),
                None => o.past,
            };
            after.session(key) == Some(RegistryView { agent, active: None, past })
        }),
        forall|k: Seq<char>| k != key ==> #[trigger] after.session(k) == before.session(k),
{
}

/// What is read of a conversation where the store answers: the agent and the
/// session id that it holds.
pub proof fn answered_read_is_what_is_held(
    db: StateDb,
    key: Seq<char>,
    read: Option<RegistryEntry>,
)
    requires
        db.private(),
        reads(db, key, read, true),
    ensures
        match db.session(key) {
            Some(e) => agent_in(read) == Some(e.agent) && active_in(read) == e.active,
            None => agent_in(read) is None && active_in(read) is None,
        },
{
}

/// What each step leaves on record: the agent and the session it goes on with, and
/// at most one more session in the history.
pub proof fn steps_change_the_record_so(e: RegistryView, agent: Seq<char>, id: Seq<char>)
    ensures
        e.recorded(agent, id).agent == agent,
        e.recorded(agent, id).active == Some(id),
        e.recorded(agent, id).past.len() <= e.past.len() + 1,
        e.active is None ==> e.recorded(agent, id).past == e.past,
        e.active == Some(id) && e.agent == agent ==> e.recorded(agent, id) == e,
        e.archived().agent == e.agent,
        e.archived().active is None,
        e.archived().past.len() == e.past.len() + (if e.active is Some {
            1int
        } else {
            0
        }),
        e.with_agent(agent).agent == agent,
        e.agent.len() > 0 && e.agent != agent ==> e.with_agent(agent).active is None,
        e.agent.len() == 0 || e.agent == agent ==> e.with_agent(agent).active == e.active
            && e.with_agent(agent).past == e.past,
        e.with_agent(agent).past.len() <= e.past.len() + 1,
        unknown().agent.len() == 0 && unknown().active is None && unknown().past.len() == 0,
{
    if e.active == Some(id) && e.agent == agent {
        assert(e.recorded(agent, id) == e);
    }
}

/// A finished turn leaves its agent as it is and the conversation under the new
/// session id; nothing is written for a conversation that is not on record.
pub proof fn finished_turn_reads_back(
    before: StateDb,
    after: StateDb,
    key: Seq<char>,
    id: Seq<char>,
    out: Outcome,
)
    requires
        before.private(),
        finishes(before, after, key, id, out),
        out.read,
        before.session(key) is Some ==> out.stored,
    ensures
        match before.session(key) {
            Some(o) => after.session(key) matches Some(n) && n.agent == o.agent && n.active == Some(
                id,
            ),
            None => after == before,
        },
        forall|k: Seq<char>| k != key ==> #[trigger] after.session(k) == before.session(k),
{
    let read = choose|read: Option<RegistryEntry>| #[trigger]
        reads(before, key, read, out.read) && finished(before, after, key, read, id, out.stored);
    assert(reads(before, key, read, out.read));
}

/// An assigned agent is on record afterwards, and a session of another agent is not
/// gone on with.
pub proof fn assigned_agent_reads_back(
    before: StateDb,
    after: StateDb,
    key: Seq<char>,
    agent: Seq<char>,
    out: Outcome,
)
    requires
        before.private(),
        assigns(before, after, key, agent, out),
        out.read,
        out.stored,
    ensures
        after.session(key) matches Some(n) && n.agent == agent && (held(before, key).agent.len() > 0
            && held(before, key).agent != agent ==> n.active is None) && (held(before, key).agent
            == agent ==> n == held(before, key)),
        forall|k: Seq<char>| k != key ==> #[trigger] after.session(k) == before.session(k),
{
    let read = choose|read: Option<RegistryEntry>| #[trigger]
        reads(before, key, read, out.read) && stores(
            before,
            after,
            key,
            taken(read).with_agent(agent),
            out.stored,
        );
    assert(reads(before, key, read, out.read));
}

/// Whatever the database is shared with, what is asked of it is to hold the entry
/// under its key: the agent, the session and the history each in its column.
pub proof fn asked_row_is_the_entry(
    before: StateDb,
    after: StateDb,
    key: Seq<char>,
    e: RegistryView,
    stored: bool,
)
    requires
        stores(before, after, key, e, stored),
    ensures
        after.asked() == before.asked().push(
            store::Request::PutSession {
                key,
                session: (e.agent, e.active, store::past_text(e.past)),
            },
        ),
{
}

} // verus!
