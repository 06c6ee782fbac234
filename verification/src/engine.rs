//! The engine: where an inbound message goes, which sessions are live, and
//! when a new one may start.

use vstd::prelude::*;
use vstd::string::*;

use crate::builtins;
use crate::commands;
use crate::commands::{CommandRegistry, CommandSpec, Source};
use crate::handles;
use crate::ids;
use crate::registry;
use crate::registry::{Outcome, RegistryEntry, SessionRegistry};
use crate::schedule;
use crate::schedule::ScheduleEntry;
use crate::session;
use crate::store;
use crate::text;
use crate::types;
use crate::types::{Message, ReplyCtx, SessionKey};

verus! {

// ── The engine ──────────────────────────────────────────────────────────

/// What the engine knows.
pub struct Engine {
    agents: Vec<String>,
    default_agent: String,
    platforms: Vec<String>,
    commands: CommandRegistry,
    sessions: dashmap::DashMap<String, u64>,
    boot_time_ms: i64,
    max_sessions: usize,
    batch_replies: bool,
    idle_timeout_ms: u64,
}

impl Engine {
    pub closed spec fn agent_names(self) -> Seq<Seq<char>> {
        text::texts(self.agents@)
    }

    pub closed spec fn default_name(self) -> Seq<char> {
        self.default_agent@
    }

    pub closed spec fn platform_names(self) -> Seq<Seq<char>> {
        text::texts(self.platforms@)
    }

    pub closed spec fn command_set(self) -> CommandRegistry {
        self.commands
    }

    pub closed spec fn live_sessions(self) -> Map<Seq<char>, u64> {
        handles::live(self.sessions)
    }

    pub closed spec fn boot(self) -> i64 {
        self.boot_time_ms
    }

    /// The cap on live sessions; 0 means none.
    pub closed spec fn cap(self) -> usize {
        self.max_sessions
    }

    pub closed spec fn batch(self) -> bool {
        self.batch_replies
    }

    pub closed spec fn idle_timeout(self) -> u64 {
        self.idle_timeout_ms
    }

    /// The default agent is registered, there is a platform, and no built-in
    /// command has lost its name.
    pub open spec fn wf(self) -> bool {
        &&& self.agent_names().contains(self.default_name())
        &&& self.platform_names().len() > 0
        &&& self.command_set().wf()
        &&& forall|i: int|
            0 <= i < builtins::builtin_names().len() ==> (self.command_set().lookup(
                commands::normal(#[trigger] builtins::builtin_names()[i]),
            ) matches Some(s) && s.source == Source::Builtin)
    }

    /// Whose turn it is in a conversation that was read as `read`: the agent that
    /// it is with, or the default one.
    pub open spec fn agent_in(self, read: Option<RegistryEntry>) -> Seq<char> {
        match read {
            Some(e) => e.agent@,
            None => self.default_name(),
        }
    }

    /// The conversation of `key` was to go on with its agent under the session id
    /// `id`.
    pub open spec fn resumes(
        self,
        before: store::StateDb,
        after: store::StateDb,
        key: Seq<char>,
        id: Seq<char>,
        out: Outcome,
    ) -> bool {
        exists|read: Option<RegistryEntry>| #[trigger]
            registry::reads(before, key, read, out.read) && registry::stores(
                before,
                after,
                key,
                registry::taken(read).recorded(self.agent_in(read), id),
                out.stored,
            )
    }

    /// What starting a session takes for a conversation that was read as `read`:
    /// it goes on with its agent and its session id.
    pub open spec fn claim_in(self, key: Seq<char>, read: Option<RegistryEntry>) -> ClaimView {
        claimed(
            handles::at(self.live_sessions(), key),
            self.live_sessions().dom().len(),
            self.cap() as nat,
            self.agent_in(read),
            self.agent_names(),
            registry::active_in(read),
        )
    }

    /// Everything but the live sessions is the same.
    pub open spec fn same_setup(self, other: Engine) -> bool {
        &&& self.agent_names() == other.agent_names()
        &&& self.default_name() == other.default_name()
        &&& self.platform_names() == other.platform_names()
        &&& self.command_set() == other.command_set()
        &&& self.boot() == other.boot()
        &&& self.cap() == other.cap()
        &&& self.batch() == other.batch()
        &&& self.idle_timeout() == other.idle_timeout()
    }
}

/// Where an inbound message goes.
#[derive(Debug, PartialEq, Eq)]
pub enum Route {
    /// It is older than this process; it is dropped.
    Stale,
    /// A built-in command, by its normalized name.
    Builtin { name: String, args: Vec<String> },
    /// No such command; this is the answer.
    Unknown { reply: String },
    /// A prompt for the session, with the agent it was addressed to.
    Prompt { agent: Option<String>, prompt: String },
}

pub enum RouteView {
    Stale,
    Builtin { name: Seq<char>, args: Seq<Seq<char>> },
    Unknown { reply: Seq<char> },
    Prompt { agent: Option<Seq<char>>, prompt: Seq<char> },
}

impl View for Route {
    type V = RouteView;

    open spec fn view(&self) -> RouteView {
        match self {
            Route::Stale => RouteView::Stale,
            Route::Builtin { name, args } => RouteView::Builtin {
                name: name@,
                args: text::texts(args@),
            },
            Route::Unknown { reply } => RouteView::Unknown { reply: reply@ },
            Route::Prompt { agent, prompt } => RouteView::Prompt {
                agent: text::opt_text(*agent),
                prompt: prompt@,
            },
        }
    }
}

/// How many characters stand before the first white space.
pub open spec fn word_length(s: Seq<char>) -> int
    decreases s.len(),
{
    if s.len() == 0 || text::is_white(s[0]) {
        0
    } else {
        1 + word_length(s.drop_first())
    }
}

/// A text that starts with `@` and the name of an agent, white space before it
/// aside, is for that agent; any other goes to the agent of the conversation
/// exactly as it is.
pub open spec fn addressed(raw: Seq<char>, agents: Seq<Seq<char>>) -> RouteView {
    let t = text::trim(raw);
    if t.len() > 0 && t[0] == '@' {
        let s = t.drop_first();
        let name = s.take(word_length(s));
        let rest = text::trim(s.skip(word_length(s)));
        if agents.contains(name) && rest.len() > 0 {
            RouteView::Prompt { agent: Some(name), prompt: rest }
        } else {
            RouteView::Prompt { agent: None, prompt: raw }
        }
    } else {
        RouteView::Prompt { agent: None, prompt: raw }
    }
}

/// The answer to a command that does not exist.
pub open spec fn unknown_command(name: Seq<char>) -> Seq<char> {
    "unknown command `/"@ + name + "` — try /help"@
}

/// Where a text goes. White space around it counts for nothing in a command.
pub open spec fn routed_text(e: Engine, raw: Seq<char>) -> RouteView {
    match commands::command_line(text::trim(raw)) {
        Some((name, args)) => match e.command_set().lookup(commands::normal(name)) {
            None => RouteView::Unknown { reply: unknown_command(name) },
            Some(spec) => if spec.source == Source::Builtin {
                RouteView::Builtin { name: commands::normal(name), args }
            } else {
                RouteView::Prompt {
                    agent: None,
                    prompt: commands::expansion(spec.template@, args),
                }
            },
        },
        None => addressed(raw, e.agent_names()),
    }
}

/// Where an inbound message goes.
pub open spec fn routed(e: Engine, msg: types::MessageView) -> RouteView {
    if msg.timestamp_ms != 0 && msg.timestamp_ms < e.boot() {
        RouteView::Stale
    } else {
        routed_text(e, msg.text)
    }
}

fn word_end(v: &[char], from: usize) -> (r: usize)
    requires
        from <= v@.len(),
    ensures
        from <= r <= v@.len(),
        r - from == word_length(v@.skip(from as int)),
{
    let n: usize = v.len();
    let mut i: usize = from;
    while i < n
        invariant
            from <= i <= n == v@.len(),
            i - from + word_length(v@.skip(i as int)) == word_length(v@.skip(from as int)),
        decreases n - i,
    {
        assert(v@.skip(i as int)[0] == v@[i as int]);
        if text::white(v[i]) {
            return i;
        }
        assert(v@.skip(i as int).drop_first() =~= v@.skip(i + 1));
        i = i + 1;
    }
    i
}

/// Whether a text is in a list.
pub fn listed(v: &Vec<String>, s: &str) -> (r: bool)
    ensures
        r == text::texts(v@).contains(s@),
{
    let mut i: usize = 0;
    while i < v.len()
        invariant
            i <= v@.len(),
            forall|j: int| 0 <= j < i ==> (#[trigger] v@[j])@ != s@,
        decreases v@.len() - i,
    {
        if text::same(v[i].as_str(), s) {
            assert(text::texts(v@)[i as int] == s@);
            return true;
        }
        i = i + 1;
    }
    assert forall|j: int| 0 <= j < text::texts(v@).len() implies text::texts(v@)[j] != s@ by {
        assert(v@[j]@ != s@);
    }
    false
}

fn address(raw: &str, agents: &Vec<String>) -> (r: Route)
    ensures
        r@ == addressed(raw@, text::texts(agents@)),
{
    let t: String = text::trimmed(raw);
    let v: Vec<char> = text::chars_of(t.as_str());
    let n: usize = v.len();
    if n > 0 && v[0] == '@' {
        let end: usize = word_end(&v, 1);
        let name: String = text::string_of(&v, 1, end);
        let tail: String = text::string_of(&v, end, n);
        let ghost s = t@.drop_first();
        assert(v@.skip(1) =~= s);
        assert(name@ =~= s.take(word_length(s)));
        assert(tail@ =~= s.skip(word_length(s)));
        let rest: String = text::trimmed(tail.as_str());
        if listed(agents, name.as_str()) && rest.as_str().unicode_len() > 0 {
            return Route::Prompt { agent: Some(name), prompt: rest };
        }
    }
    Route::Prompt { agent: None, prompt: raw.to_string() }
}

/// What starting a session takes.
#[derive(Debug, PartialEq, Eq)]
pub enum Claim {
    /// A session is live, under this handle.
    Existing(u64),
    /// There are too many; this is the answer, and this the error.
    Full { reply: String, error: String },
    /// The agent of the conversation does not exist any more.
    UnknownAgent { error: String },
    /// A session is to be started.
    Start { agent: String, resume: Option<String> },
}

pub enum ClaimView {
    Existing(u64),
    Full { reply: Seq<char>, error: Seq<char> },
    UnknownAgent { error: Seq<char> },
    Start { agent: Seq<char>, resume: Option<Seq<char>> },
}

impl View for Claim {
    type V = ClaimView;

    open spec fn view(&self) -> ClaimView {
        match self {
            Claim::Existing(h) => ClaimView::Existing(*h),
            Claim::Full { reply, error } => ClaimView::Full { reply: reply@, error: error@ },
            Claim::UnknownAgent { error } => ClaimView::UnknownAgent { error: error@ },
            Claim::Start { agent, resume } => ClaimView::Start {
                agent: agent@,
                resume: text::opt_text(*resume),
            },
        }
    }
}

/// The answer to a user for whom there is no room.
pub open spec fn capacity_reply() -> Seq<char> {
    "⚠️ bridge is at capacity (too many active sessions). Try /new on an idle conversation or wait a moment."@
}

/// What starting a session takes: a live one is used; beyond the cap none is
/// started; otherwise the agent of the conversation goes on where it was.
pub open spec fn claimed(
    handle: Option<u64>,
    count: nat,
    cap: nat,
    agent: Seq<char>,
    agents: Seq<Seq<char>>,
    resume: Option<Seq<char>>,
) -> ClaimView {
    match handle {
        Some(h) => ClaimView::Existing(h),
        None => if cap > 0 && count >= cap {
            ClaimView::Full {
                reply: capacity_reply(),
                error: "max_sessions ("@ + text::decimal(cap) + ") reached"@,
            }
        } else if !agents.contains(agent) {
            ClaimView::UnknownAgent { error: "unknown agent `"@ + agent + "`"@ }
        } else {
            ClaimView::Start { agent, resume }
        },
    }
}

/// What starting a session takes.
pub fn decide_claim(
    handle: Option<u64>,
    count: usize,
    cap: usize,
    agent: String,
    agents: &Vec<String>,
    resume: Option<String>,
) -> (r: Claim)
    ensures
        r@ == claimed(
            handle,
            count as nat,
            cap as nat,
            agent@,
            text::texts(agents@),
            text::opt_text(resume),
        ),
{
    match handle {
        Some(h) => Claim::Existing(h),
        None => if cap > 0 && count >= cap {
            Claim::Full {
                reply: "⚠️ bridge is at capacity (too many active sessions). Try /new on an idle conversation or wait a moment.".to_string(),
                error: text::concat3(
                    "max_sessions (",
                    text::decimal_text(cap as u64).as_str(),
                    ") reached",
                ),
            }
        } else if !listed(agents, agent.as_str()) {
            Claim::UnknownAgent { error: text::concat3("unknown agent `", agent.as_str(), "`") }
        } else {
            Claim::Start { agent, resume }
        },
    }
}

/// What is said of an agent that is not registered.
pub open spec fn unknown_agent(agent: Seq<char>, agents: Seq<Seq<char>>) -> Seq<char> {
    "unknown agent `"@ + agent + "` (available: "@ + text::join(agents, ", "@) + ")"@
}

/// A count of the engine, for the admin interface.
#[derive(Debug, PartialEq, Eq)]
pub struct EngineStats {
    pub active_sessions: usize,
    pub agents: Vec<String>,
    pub platforms: Vec<String>,
    pub default_agent: String,
    pub uptime_s: u64,
    pub max_sessions: usize,
    pub sessions: Vec<String>,
}

/// Where a text is in a list, if it is there.
pub fn index_in(v: &Vec<String>, s: &str) -> (r: Option<usize>)
    ensures
        match r {
            Some(i) => i < v@.len() && v@[i as int]@ == s@ && forall|j: int|
                0 <= j < i ==> (#[trigger] v@[j])@ != s@,
            None => forall|j: int| 0 <= j < v@.len() ==> (#[trigger] v@[j])@ != s@,
        },
{
    let mut i: usize = 0;
    while i < v.len()
        invariant
            i <= v@.len(),
            forall|j: int| 0 <= j < i ==> (#[trigger] v@[j])@ != s@,
        decreases v@.len() - i,
    {
        if text::same(v[i].as_str(), s) {
            return Some(i);
        }
        i = i + 1;
    }
    None
}

/// Why a `/schedule` command is refused at time `now`.
pub open spec fn refused_schedule(when: Seq<char>, now: int) -> Seq<char> {
    match schedule::planned(when, now) {
        Err(m) => m,
        Ok(_) => "schedule is out of range"@,
    }
}

/// The entry that a `/schedule` command asks for.
pub fn make_schedule(
    id: String,
    key: &SessionKey,
    reply_ctx: &ReplyCtx,
    when: &str,
    prompt: String,
    now: i64,
) -> (r: Result<ScheduleEntry, String>)
    requires
        0 <= now <= i64::MAX - 200_000_000,
    ensures
        match r {
            Ok(e) => {
                &&& schedule::plan_fits(schedule::planned(when@, now as int))
                &&& schedule::as_planned(
                    Ok(e.schedule),
                    schedule::planned(when@, now as int),
                )
                &&& e@ == (schedule::ScheduleEntryView {
                    id: id@,
                    key: key@,
                    prompt: prompt@,
                    reply_ctx: reply_ctx@,
                    schedule: e.schedule,
                    created_at_ms: now,
                    last_fired_ms: None,
                })
            },
            Err(m) => {
                &&& !schedule::plan_fits(schedule::planned(when@, now as int))
                    || schedule::planned(when@, now as int) is Err
                &&& m@ == refused_schedule(when@, now as int)
            },
        },
{
    match schedule::checked_schedule_at(when, now) {
        Ok(kind) => Ok(
            ScheduleEntry {
                id,
                key: key.clone(),
                prompt,
                reply_ctx: reply_ctx.clone(),
                schedule: kind,
                created_at_ms: now,
                last_fired_ms: None,
            },
        ),
        Err(e) => Err(e),
    }
}

/// What a `/schedule` command comes to at some time: an entry under an id of its
/// own, or the reason why there is none.
pub open spec fn schedule_made(
    key: Seq<char>,
    reply_ctx: types::ReplyCtxView,
    when: Seq<char>,
    prompt: Seq<char>,
    r: Result<ScheduleEntry, String>,
) -> bool {
    match r {
        Ok(e) => {
            &&& ids::is_uuid(e.id@)
            &&& e.key@ == key
            &&& e.prompt@ == prompt
            &&& e.reply_ctx@ == reply_ctx
            &&& e.last_fired_ms is None
            &&& 0 <= e.created_at_ms <= types::CLOCK_MAX
            &&& schedule::as_planned(
                Ok(e.schedule),
                schedule::planned(when, e.created_at_ms as int),
            )
        },
        Err(m) => exists|now: int|
            {
                &&& 0 <= now <= types::CLOCK_MAX
                &&& !schedule::plan_fits(schedule::planned(when, now)) || schedule::planned(
                    when,
                    now,
                ) is Err
                &&& m@ == #[trigger] refused_schedule(when, now)
            },
    }
}

/// The entry that a `/schedule` command asks for at the time of the call,
/// under a fresh id.
pub fn new_schedule(key: &SessionKey, reply_ctx: &ReplyCtx, when: &str, prompt: String) -> (r:
    Result<ScheduleEntry, String>)
    ensures
        schedule_made(key@, reply_ctx@, when@, prompt@, r),
{
    let now: i64 = types::now_ms();
    let r: Result<ScheduleEntry, String> = make_schedule(
        ids::new_id(),
        key,
        reply_ctx,
        when,
        prompt,
        now,
    );
    assert(r matches Err(m) ==> m@ == refused_schedule(when@, now as int));
    r
}

impl Engine {
    pub fn builder() -> (r: EngineBuilder)
        ensures
            r.is_new(),
    {
        EngineBuilder::new()
    }

    pub fn commands(&self) -> (r: &CommandRegistry)
        ensures
            *r == self.command_set(),
    {
        &self.commands
    }

    pub fn agents(&self) -> (r: &Vec<String>)
        ensures
            text::texts(r@) == self.agent_names(),
    {
        &self.agents
    }

    pub fn default_agent(&self) -> (r: &str)
        ensures
            r@ == self.default_name(),
    {
        self.default_agent.as_str()
    }

    pub fn batch_replies(&self) -> (r: bool)
        ensures
            r == self.batch(),
    {
        self.batch_replies
    }

    pub fn idle_timeout_ms(&self) -> (r: u64)
        ensures
            r == self.idle_timeout(),
    {
        self.idle_timeout_ms
    }

    /// Where an inbound message goes.
    pub fn route(&self, msg: &Message) -> (r: Route)
        requires
            self.wf(),
        ensures
            r@ == routed(*self, msg@),
    {
        if msg.timestamp_ms != 0 && msg.timestamp_ms < self.boot_time_ms {
            return Route::Stale;
        }
        let t: String = text::trimmed(msg.text.as_str());
        match commands::parse_command_line(t.as_str()) {
            Some((name, args)) => match self.commands.get(name.as_str()) {
                Some(spec) => match spec.source {
                    Source::Builtin => Route::Builtin {
                        name: CommandRegistry::normalize(name.as_str()),
                        args,
                    },
                    _ => Route::Prompt {
                        agent: None,
                        prompt: commands::expand_words(spec.template.as_str(), &args),
                    },
                },
                None => Route::Unknown {
                    reply: text::concat3("unknown command `/", name.as_str(), "` — try /help"),
                },
            },
            None => address(msg.text.as_str(), &self.agents),
        }
    }

    /// The platform that serves a key: the one the key names, or the first.
    pub fn platform_for(&self, key: &SessionKey) -> (r: usize)
        requires
            self.wf(),
        ensures
            r < self.platform_names().len(),
            match types::key_platform(key@) {
                Some(p) => if self.platform_names().contains(p) {
                    self.platform_names()[r as int] == p
                } else {
                    r == 0
                },
                None => r == 0,
            },
    {
        match key.platform() {
            Some(p) => match index_in(&self.platforms, p.as_str()) {
                Some(i) => {
                    assert(self.platform_names()[i as int] == p@);
                    i
                },
                None => {
                    assert forall|j: int| 0 <= j < self.platform_names().len() implies self.platform_names()[j]
                        != p@ by {
                        assert(self.platforms@[j]@ != p@);
                    }
                    0
                },
            },
            None => 0,
        }
    }

    /// The agent of a conversation that was read as `read`.
    pub fn agent_read(&self, read: &Option<RegistryEntry>) -> (r: String)
        ensures
            r@ == self.agent_in(*read),
    {
        match registry::agent_read(read) {
            Some(a) => a,
            None => self.default_agent.clone(),
        }
    }

    /// The agent of a conversation.
    pub fn current_agent(&self, key: &SessionKey, reg: &SessionRegistry) -> (r: String)
        ensures
            exists|read: Option<RegistryEntry>, answered: bool| #[trigger]
                registry::reads(reg.store(), key@, read, answered) && r@ == self.agent_in(read),
    {
        let (read, answered): (Option<RegistryEntry>, bool) = reg.look_up(key);
        assert(registry::reads(reg.store(), key@, read, answered));
        self.agent_read(&read)
    }

    /// What starting a session takes for a conversation that was read as `read`.
    pub fn claim_read(&self, key: &SessionKey, read: Option<RegistryEntry>) -> (r: Claim)
        ensures
            r@ == self.claim_in(key@, read),
    {
        let handle: Option<u64> = handles::handles_get(&self.sessions, key.0.as_str());
        let count: usize = handles::handles_len(&self.sessions);
        let agent: String = self.agent_read(&read);
        let resume: Option<String> = registry::active_read(&read);
        decide_claim(handle, count, self.max_sessions, agent, &self.agents, resume)
    }

    /// What starting a session for a conversation takes. The agent and the
    /// session id to go on with are those of the registry; an unknown
    /// conversation starts afresh with the default agent.
    pub fn claim_session(&self, key: &SessionKey, reg: &SessionRegistry) -> (r: Claim)
        ensures
            exists|read: Option<RegistryEntry>, answered: bool| #[trigger]
                registry::reads(reg.store(), key@, read, answered) && r@ == self.claim_in(
                    key@,
                    read,
                ),
    {
        let (read, answered): (Option<RegistryEntry>, bool) = reg.look_up(key);
        assert(registry::reads(reg.store(), key@, read, answered));
        self.claim_read(key, read)
    }

    /// A session has started.
    pub fn session_started(&mut self, key: &SessionKey, handle: u64)
        ensures
            final(self).live_sessions() == old(self).live_sessions().insert(key@, handle),
            final(self).same_setup(*old(self)),
            old(self).wf() ==> final(self).wf(),
    {
        handles::handles_insert(&mut self.sessions, key.0.clone(), handle);
    }

    /// A session is over; its handle, if it was live.
    pub fn session_ended(&mut self, key: &SessionKey) -> (r: Option<u64>)
        ensures
            r == handles::at(old(self).live_sessions(), key@),
            final(self).live_sessions() == old(self).live_sessions().remove(key@),
            final(self).same_setup(*old(self)),
            old(self).wf() ==> final(self).wf(),
    {
        handles::handles_remove(&mut self.sessions, key.0.as_str())
    }

    /// A session did not take a message: its actor is gone. The first time, it
    /// is forgotten, as `reset_read` does it, and another may start in its
    /// place, as `claim_read` says; after that, the message is given up.
    pub fn send_failed(&mut self, key: &SessionKey, reg: &mut SessionRegistry, retried: bool)
        -> (r: Result<Claim, String>)
        ensures
            final(self).same_setup(*old(self)),
            old(self).wf() ==> final(self).wf(),
            match r {
                Err(e) => retried && e@ == "session actor dropped on retry"@ && *final(reg)
                    == *old(reg) && final(self).live_sessions() == old(self).live_sessions(),
                Ok(c) => {
                    &&& !retried
                    &&& final(self).live_sessions() == old(self).live_sessions().remove(key@)
                    &&& !(c@ is Existing)
                    &&& exists|out: Outcome| #[trigger]
                        registry::clears(old(reg).store(), final(reg).store(), key@, out)
                    &&& exists|again: Option<RegistryEntry>, answered: bool| #[trigger]
                        registry::reads(final(reg).store(), key@, again, answered) && c@
                            == final(self).claim_in(key@, again)
                },
            },
    {
        if retried {
            return Err("session actor dropped on retry".to_string());
        }
        let (_, out): (Option<u64>, Outcome) = self.reset_session(key, reg);
        assert(registry::clears(old(reg).store(), reg.store(), key@, out));
        Ok(self.claim_session(key, reg))
    }

    /// The handle of the live session of a conversation.
    pub fn session_handle(&self, key: &SessionKey) -> (r: Option<u64>)
        ensures
            r == handles::at(self.live_sessions(), key@),
    {
        handles::handles_get(&self.sessions, key.0.as_str())
    }

    /// Take all live sessions out, to close them.
    pub fn shutdown(&mut self) -> (r: Vec<(String, u64)>)
        ensures
            handles::walks(r@, old(self).live_sessions()),
            final(self).live_sessions() == handles::no_handles(),
            final(self).same_setup(*old(self)),
            old(self).wf() ==> final(self).wf(),
    {
        let all: Vec<(String, u64)> = handles::handles_list(&self.sessions);
        self.sessions = handles::handles_new();
        all
    }

    /// A conversation that was read as `read` is to end its session and start
    /// afresh. The handle to close, and whether the change was stored.
    pub fn reset_read(
        &mut self,
        key: &SessionKey,
        reg: &mut SessionRegistry,
        read: Option<RegistryEntry>,
    ) -> (r: (Option<u64>, bool))
        ensures
            r.0 == handles::at(old(self).live_sessions(), key@),
            final(self).live_sessions() == old(self).live_sessions().remove(key@),
            final(self).same_setup(*old(self)),
            old(self).wf() ==> final(self).wf(),
            registry::archives(old(reg).store(), final(reg).store(), key@, read, r.1),
    {
        let handle: Option<u64> = self.session_ended(key);
        let stored: bool = reg.archive_read(key, read);
        (handle, stored)
    }

    /// A conversation is to end its session and start afresh. The handle to close,
    /// and how the change went.
    pub fn reset_session(&mut self, key: &SessionKey, reg: &mut SessionRegistry) -> (r: (
        Option<u64>,
        Outcome,
    ))
        ensures
            r.0 == handles::at(old(self).live_sessions(), key@),
            final(self).live_sessions() == old(self).live_sessions().remove(key@),
            final(self).same_setup(*old(self)),
            old(self).wf() ==> final(self).wf(),
            registry::clears(old(reg).store(), final(reg).store(), key@, r.1),
    {
        let (entry, read): (Option<RegistryEntry>, bool) = reg.look_up(key);
        let ghost known = entry;
        let (handle, stored): (Option<u64>, bool) = self.reset_read(key, reg, entry);
        let out: Outcome = Outcome { read, stored };
        assert(registry::reads(old(reg).store(), key@, known, out.read));
        (handle, out)
    }

    /// A conversation is to end its session and lose its history.
    pub fn clear_session(&mut self, key: &SessionKey, reg: &mut SessionRegistry) -> (r: Option<u64>)
        ensures
            r == handles::at(old(self).live_sessions(), key@),
            final(self).live_sessions() == old(self).live_sessions().remove(key@),
            final(self).same_setup(*old(self)),
            old(self).wf() ==> final(self).wf(),
            old(reg).store().private() ==> old(reg).store().unchanged(final(reg).store()) || (
            final(reg).store().session(key@) is None && old(reg).store().only_session_changed(
                final(reg).store(),
                key@,
            )),
            final(reg).store().asked() == old(reg).store().asked().push(
                store::Request::DropSession { key: key@ },
            ),
    {
        let handle: Option<u64> = self.session_ended(key);
        reg.clear_all(key);
        handle
    }

    /// A conversation that was read as `read` is to go on with another agent. The
    /// old session is archived. The handle to close, and whether the change was
    /// stored.
    pub fn switch_read(
        &mut self,
        key: &SessionKey,
        new_agent: &str,
        reg: &mut SessionRegistry,
        read: Option<RegistryEntry>,
    ) -> (r: Result<(Option<u64>, bool), String>)
        ensures
            final(self).same_setup(*old(self)),
            old(self).wf() ==> final(self).wf(),
            match r {
                Ok((handle, stored)) => {
                    &&& old(self).agent_names().contains(new_agent@)
                    &&& handle == handles::at(old(self).live_sessions(), key@)
                    &&& final(self).live_sessions() == old(self).live_sessions().remove(key@)
                    &&& registry::stores(
                        old(reg).store(),
                        final(reg).store(),
                        key@,
                        registry::switched(registry::taken(read), new_agent@),
                        stored,
                    )
                },
                Err(e) => {
                    &&& !old(self).agent_names().contains(new_agent@)
                    &&& e@ == unknown_agent(new_agent@, old(self).agent_names())
                    &&& *final(reg) == *old(reg)
                    &&& final(self).live_sessions() == old(self).live_sessions()
                },
            },
    {
        if !listed(&self.agents, new_agent) {
            let mut e: String = text::concat3("unknown agent `", new_agent, "` (available: ");
            e.append(text::joined(&self.agents, ", ").as_str());
            e.append(")");
            return Err(e);
        }
        let handle: Option<u64> = self.session_ended(key);
        let stored: bool = reg.switch_read(key, read, new_agent.to_string());
        Ok((handle, stored))
    }

    /// A conversation is to go on with another agent. The old session is
    /// archived. The handle to close, and how the change went.
    pub fn switch_agent(
        &mut self,
        key: &SessionKey,
        new_agent: &str,
        reg: &mut SessionRegistry,
    ) -> (r: Result<(Option<u64>, Outcome), String>)
        ensures
            final(self).same_setup(*old(self)),
            old(self).wf() ==> final(self).wf(),
            match r {
                Ok((handle, out)) => {
                    &&& old(self).agent_names().contains(new_agent@)
                    &&& handle == handles::at(old(self).live_sessions(), key@)
                    &&& final(self).live_sessions() == old(self).live_sessions().remove(key@)
                    &&& registry::switches(
                        old(reg).store(),
                        final(reg).store(),
                        key@,
                        new_agent@,
                        out,
                    )
                },
                Err(e) => {
                    &&& !old(self).agent_names().contains(new_agent@)
                    &&& e@ == unknown_agent(new_agent@, old(self).agent_names())
                    &&& *final(reg) == *old(reg)
                    &&& final(self).live_sessions() == old(self).live_sessions()
                },
            },
    {
        let (entry, read): (Option<RegistryEntry>, bool) = reg.look_up(key);
        let ghost known = entry;
        match self.switch_read(key, new_agent, reg, entry) {
            Ok((handle, stored)) => {
                let out: Outcome = Outcome { read, stored };
                assert(registry::reads(old(reg).store(), key@, known, out.read));
                Ok((handle, out))
            },
            Err(e) => Err(e),
        }
    }

    /// A session that was to be started is live, under an id that its agent
    /// gave it.
    pub fn spawned(
        &mut self,
        key: &SessionKey,
        handle: u64,
        agent: String,
        id: String,
        reg: &mut SessionRegistry,
    ) -> (out: Outcome)
        ensures
            final(self).live_sessions() == old(self).live_sessions().insert(key@, handle),
            final(self).same_setup(*old(self)),
            old(self).wf() ==> final(self).wf(),
            registry::records(old(reg).store(), final(reg).store(), key@, agent@, id@, out),
    {
        self.session_started(key, handle);
        reg.record_session(key.clone(), agent, id)
    }

    /// A conversation that was read as `read` is to go on with an earlier session;
    /// the next message resumes it. The handle to close, the answer, and whether
    /// the change was stored.
    pub fn resume_read(
        &mut self,
        key: &SessionKey,
        id: &str,
        reg: &mut SessionRegistry,
        read: Option<RegistryEntry>,
    ) -> (r: (Option<u64>, String, bool))
        ensures
            r.0 == handles::at(old(self).live_sessions(), key@),
            r.1@ == "will resume session `"@ + id@ + "` on next message."@,
            final(self).live_sessions() == old(self).live_sessions().remove(key@),
            final(self).same_setup(*old(self)),
            old(self).wf() ==> final(self).wf(),
            registry::stores(
                old(reg).store(),
                final(reg).store(),
                key@,
                registry::taken(read).recorded(old(self).agent_in(read), id@),
                r.2,
            ),
    {
        let handle: Option<u64> = self.session_ended(key);
        let agent: String = self.agent_read(&read);
        let stored: bool = reg.record_read(key, read, agent, id.to_string());
        (handle, text::concat3("will resume session `", id, "` on next message."), stored)
    }

    /// A conversation is to go on with an earlier session; the next message
    /// resumes it. The handle to close, the answer, and how the change went.
    pub fn resume_session(&mut self, key: &SessionKey, id: &str, reg: &mut SessionRegistry) -> (r: (
        Option<u64>,
        String,
        Outcome,
    ))
        ensures
            r.0 == handles::at(old(self).live_sessions(), key@),
            r.1@ == "will resume session `"@ + id@ + "` on next message."@,
            final(self).live_sessions() == old(self).live_sessions().remove(key@),
            final(self).same_setup(*old(self)),
            old(self).wf() ==> final(self).wf(),
            old(self).resumes(old(reg).store(), final(reg).store(), key@, id@, r.2),
    {
        let (entry, read): (Option<RegistryEntry>, bool) = reg.look_up(key);
        let ghost known = entry;
        let (handle, reply, stored): (Option<u64>, String, bool) = self.resume_read(
            key,
            id,
            reg,
            entry,
        );
        let out: Outcome = Outcome { read, stored };
        assert(registry::reads(old(reg).store(), key@, known, out.read));
        (handle, reply, out)
    }

    /// A message in a conversation that was read as `read` is addressed to an
    /// agent by name: a conversation with another one is switched over. Where it
    /// is, the handle to close, and whether the change was stored.
    pub fn address_read(
        &mut self,
        key: &SessionKey,
        agent: &str,
        reg: &mut SessionRegistry,
        read: Option<RegistryEntry>,
    ) -> (r: Result<Option<(Option<u64>, bool)>, String>)
        ensures
            final(self).same_setup(*old(self)),
            old(self).wf() ==> final(self).wf(),
            match r {
                Ok(None) => {
                    &&& old(self).agent_in(read) == agent@
                    &&& *final(reg) == *old(reg)
                    &&& final(self).live_sessions() == old(self).live_sessions()
                },
                Ok(Some((handle, stored))) => {
                    &&& old(self).agent_in(read) != agent@
                    &&& old(self).agent_names().contains(agent@)
                    &&& handle == handles::at(old(self).live_sessions(), key@)
                    &&& final(self).live_sessions() == old(self).live_sessions().remove(key@)
                    &&& registry::stores(
                        old(reg).store(),
                        final(reg).store(),
                        key@,
                        registry::switched(registry::taken(read), agent@),
                        stored,
                    )
                },
                Err(e) => {
                    &&& old(self).agent_in(read) != agent@
                    &&& !old(self).agent_names().contains(agent@)
                    &&& e@ == unknown_agent(agent@, old(self).agent_names())
                    &&& *final(reg) == *old(reg)
                    &&& final(self).live_sessions() == old(self).live_sessions()
                },
            },
    {
        let now: String = self.agent_read(&read);
        if text::same(now.as_str(), agent) {
            return Ok(None);
        }
        match self.switch_read(key, agent, reg, read) {
            Ok(r) => Ok(Some(r)),
            Err(e) => Err(e),
        }
    }

    /// A message is addressed to an agent by name: a conversation with another
    /// one is switched over. Where it is, the handle to close, and how the change
    /// went.
    pub fn address_agent(&mut self, key: &SessionKey, agent: &str, reg: &mut SessionRegistry) -> (r:
        Result<Option<(Option<u64>, Outcome)>, String>)
        ensures
            final(self).same_setup(*old(self)),
            old(self).wf() ==> final(self).wf(),
            exists|read: Option<RegistryEntry>, answered: bool| #[trigger]
                registry::reads(old(reg).store(), key@, read, answered) && match r {
                    Ok(None) => {
                        &&& old(self).agent_in(read) == agent@
                        &&& *final(reg) == *old(reg)
                        &&& final(self).live_sessions() == old(self).live_sessions()
                    },
                    Ok(Some((handle, out))) => {
                        &&& out.read == answered
                        &&& old(self).agent_in(read) != agent@
                        &&& old(self).agent_names().contains(agent@)
                        &&& handle == handles::at(old(self).live_sessions(), key@)
                        &&& final(self).live_sessions() == old(self).live_sessions().remove(key@)
                        &&& registry::stores(
                            old(reg).store(),
                            final(reg).store(),
                            key@,
                            registry::switched(registry::taken(read), agent@),
                            out.stored,
                        )
                    },
                    Err(e) => {
                        &&& old(self).agent_in(read) != agent@
                        &&& !old(self).agent_names().contains(agent@)
                        &&& e@ == unknown_agent(agent@, old(self).agent_names())
                        &&& *final(reg) == *old(reg)
                        &&& final(self).live_sessions() == old(self).live_sessions()
                    },
                },
    {
        let (entry, read): (Option<RegistryEntry>, bool) = reg.look_up(key);
        assert(registry::reads(reg.store(), key@, entry, read));
        match self.address_read(key, agent, reg, entry) {
            Ok(Some((handle, stored))) => Ok(Some((handle, Outcome { read, stored }))),
            Ok(None) => Ok(None),
            Err(e) => Err(e),
        }
    }

    /// The counts of the engine at time `now_ms`.
    pub fn stats(&self, now_ms: i64) -> (r: EngineStats)
        ensures
            handles::counts(self.live_sessions(), r.active_sessions as nat),
            text::texts(r.agents@) == self.agent_names(),
            text::texts(r.platforms@) == self.platform_names(),
            r.default_agent@ == self.default_name(),
            r.max_sessions == self.cap(),
            r.uptime_s == (if now_ms > self.boot() {
                (now_ms - self.boot()) / 1000
            } else {
                0
            }),
            forall|k: Seq<char>|
                text::texts(r.sessions@).contains(k) <==> #[trigger] self.live_sessions().contains_key(
                    k,
                ),
            text::texts(r.sessions@).no_duplicates(),
    {
        let uptime: i128 = if now_ms > self.boot_time_ms {
            (now_ms as i128 - self.boot_time_ms as i128) / 1000
        } else {
            0
        };
        let entries: Vec<(String, u64)> = handles::handles_list(&self.sessions);
        let mut keys: Vec<String> = Vec::new();
        let mut i: usize = 0;
        while i < entries.len()
            invariant
                i <= entries@.len(),
                keys@.len() == i,
                forall|j: int| 0 <= j < i ==> (#[trigger] keys@[j])@ == entries@[j].0@,
            decreases entries@.len() - i,
        {
            keys.push(entries[i].0.clone());
            i = i + 1;
        }
        proof {
            let t = text::texts(keys@);
            assert forall|a: int, b: int| 0 <= a < t.len() && 0 <= b < t.len() && a != b implies t[a]
                != t[b] by {
                if a < b {
                    assert(entries@[a].0@ != entries@[b].0@);
                } else {
                    assert(entries@[b].0@ != entries@[a].0@);
                }
            }
            assert forall|k: Seq<char>| t.contains(k) <==> #[trigger] self.live_sessions().contains_key(
                k,
            ) by {
                if t.contains(k) {
                    let j = choose|j: int| 0 <= j < t.len() && t[j] == k;
                    assert(self.live_sessions().contains_pair(entries@[j].0@, entries@[j].1));
                }
                if self.live_sessions().contains_key(k) {
                    let j = choose|j: int| 0 <= j < entries@.len() && (#[trigger] entries@[j]).0@ == k;
                    assert(t[j] == k);
                }
            }
        }
        EngineStats {
            active_sessions: handles::handles_len(&self.sessions),
            agents: text::copy_strings(&self.agents),
            platforms: text::copy_strings(&self.platforms),
            default_agent: self.default_agent.clone(),
            uptime_s: uptime as u64,
            max_sessions: self.max_sessions,
            sessions: keys,
        }
    }
}

// ── Building ────────────────────────────────────────────────────────────

/// The cap on live sessions where none is set.
pub const DEFAULT_MAX_SESSIONS: usize = 96;

pub struct EngineBuilder {
    pub agents: Vec<String>,
    pub default_agent: Option<String>,
    pub platforms: Vec<String>,
    pub extra_commands: Vec<CommandSpec>,
    pub max_sessions: Option<usize>,
    pub batch_replies: bool,
    pub idle_timeout_ms: Option<u64>,
}

/// One more text in a list, unless it is there.
pub open spec fn with_text(v: Seq<Seq<char>>, s: Seq<char>) -> Seq<Seq<char>> {
    if v.contains(s) {
        v
    } else {
        v.push(s)
    }
}

fn add_text(v: &mut Vec<String>, s: &str)
    ensures
        text::texts(final(v)@) == with_text(text::texts(old(v)@), s@),
{
    if !listed(v, s) {
        let ghost before = v@;
        v.push(s.to_string());
        assert(text::texts(v@) =~= text::texts(before).push(s@));
    }
}

impl EngineBuilder {
    /// Nothing is set but that replies are batched.
    pub open spec fn is_new(self) -> bool {
        &&& self.agents@.len() == 0
        &&& self.default_agent is None
        &&& self.platforms@.len() == 0
        &&& self.extra_commands@.len() == 0
        &&& self.max_sessions is None
        &&& self.batch_replies
        &&& self.idle_timeout_ms is None
    }

    pub fn new() -> (r: EngineBuilder)
        ensures
            r.is_new(),
    {
        EngineBuilder {
            agents: Vec::new(),
            default_agent: None,
            platforms: Vec::new(),
            extra_commands: Vec::new(),
            max_sessions: None,
            batch_replies: true,
            idle_timeout_ms: None,
        }
    }

    /// Register an agent, by name.
    pub fn add_agent(self, name: &str) -> (r: EngineBuilder)
        ensures
            text::texts(r.agents@) == with_text(text::texts(self.agents@), name@),
            r == (EngineBuilder { agents: r.agents, ..self }),
    {
        let mut b = self;
        add_text(&mut b.agents, name);
        b
    }

    /// The agent of a conversation that has chosen none.
    pub fn default_agent(self, name: &str) -> (r: EngineBuilder)
        ensures
            text::opt_text(r.default_agent) == Some(name@),
            r == (EngineBuilder { default_agent: r.default_agent, ..self }),
    {
        let mut b = self;
        b.default_agent = Some(name.to_string());
        b
    }

    /// Register a platform, by name.
    pub fn add_platform(self, name: &str) -> (r: EngineBuilder)
        ensures
            text::texts(r.platforms@) == with_text(text::texts(self.platforms@), name@),
            r == (EngineBuilder { platforms: r.platforms, ..self }),
    {
        let mut b = self;
        add_text(&mut b.platforms, name);
        b
    }

    /// Register the only platform, by name.
    pub fn platform(self, name: &str) -> (r: EngineBuilder)
        ensures
            text::texts(r.platforms@) == seq![name@],
            r == (EngineBuilder { platforms: r.platforms, ..self }),
    {
        let mut b = self;
        let mut one: Vec<String> = Vec::new();
        one.push(name.to_string());
        assert(text::texts(one@) =~= seq![name@]);
        b.platforms = one;
        b
    }

    /// Offer a command besides the built-in ones.
    pub fn add_command(self, spec: CommandSpec) -> (r: EngineBuilder)
        ensures
            r.extra_commands@ == self.extra_commands@.push(spec),
            r == (EngineBuilder { extra_commands: r.extra_commands, ..self }),
    {
        let mut b = self;
        b.extra_commands.push(spec);
        b
    }

    /// Cap the number of live sessions. 0 means no cap.
    pub fn max_sessions(self, n: usize) -> (r: EngineBuilder)
        ensures
            r == (EngineBuilder { max_sessions: Some(n), ..self }),
    {
        EngineBuilder { max_sessions: Some(n), ..self }
    }

    /// Send a single reply per turn of the agent.
    pub fn batch_replies(self, b: bool) -> (r: EngineBuilder)
        ensures
            r == (EngineBuilder { batch_replies: b, ..self }),
    {
        EngineBuilder { batch_replies: b, ..self }
    }

    /// How long a session may be idle, in milliseconds.
    pub fn idle_timeout_ms(self, ms: u64) -> (r: EngineBuilder)
        ensures
            r == (EngineBuilder { idle_timeout_ms: Some(ms), ..self }),
    {
        EngineBuilder { idle_timeout_ms: Some(ms), ..self }
    }

    /// Why the engine cannot be built, if it cannot.
    pub open spec fn problem(self) -> Option<Seq<char>> {
        match self.default_agent {
            None => Some("default_agent required"@),
            Some(d) => if !text::texts(self.agents@).contains(d@) {
                Some("default_agent `"@ + d@ + "` not registered"@)
            } else if self.platforms@.len() == 0 {
                Some("platform required"@)
            } else {
                None
            },
        }
    }

    /// The engine, started at time `boot_time_ms`, with the built-in commands
    /// and those of the extra ones whose names are free.
    pub fn build(self, boot_time_ms: i64) -> (r: Result<Engine, String>)
        ensures
            match r {
                Err(e) => self.problem() == Some(e@),
                Ok(e) => {
                    &&& self.problem() is None
                    &&& e.wf()
                    &&& e.agent_names() == text::texts(self.agents@)
                    &&& Some(e.default_name()) == text::opt_text(self.default_agent)
                    &&& e.platform_names() == text::texts(self.platforms@)
                    &&& e.boot() == boot_time_ms
                    &&& e.cap() == (match self.max_sessions {
                        Some(n) => n,
                        None => DEFAULT_MAX_SESSIONS,
                    })
                    &&& e.batch() == self.batch_replies
                    &&& e.idle_timeout() == (match self.idle_timeout_ms {
                        Some(ms) => ms,
                        None => session::DEFAULT_IDLE_TIMEOUT,
                    })
                    &&& e.live_sessions() == handles::no_handles()
                    &&& commands::command_views(e.command_set().all()) == commands::offered(
                        builtins::builtin_specs(),
                        commands::command_views(self.extra_commands@),
                    )
                },
            },
    {
        let default_agent: String = match self.default_agent {
            Some(d) => d,
            None => {
                return Err("default_agent required".to_string());
            },
        };
        if !listed(&self.agents, default_agent.as_str()) {
            return Err(
                text::concat3("default_agent `", default_agent.as_str(), "` not registered"),
            );
        }
        if self.platforms.len() == 0 {
            return Err("platform required".to_string());
        }
        let mut commands: CommandRegistry = builtins::builtin_registry();
        let ghost extra = commands::command_views(self.extra_commands@);
        let mut i: usize = 0;
        assert(extra.take(0).len() == 0);
        while i < self.extra_commands.len()
            invariant
                i <= self.extra_commands@.len(),
                commands.wf(),
                builtins::has_builtins(commands),
                extra == commands::command_views(self.extra_commands@),
                commands::command_views(commands.all()) == commands::offered(
                    builtins::builtin_specs(),
                    extra.take(i as int),
                ),
            decreases self.extra_commands@.len() - i,
        {
            let ghost before = commands;
            let spec: CommandSpec = self.extra_commands[i].clone();
            let ghost s = spec;
            let accepted: bool = commands.register(spec).is_ok();
            proof {
                builtins::lemma_builtins_stay(before, commands, s, accepted);
                assert(extra.take(i + 1).drop_last() =~= extra.take(i as int));
                assert(extra.take(i + 1).last() == s@);
            }
            i = i + 1;
        }
        assert(extra.take(i as int) =~= extra);
        Ok(
            Engine {
                agents: self.agents,
                default_agent,
                platforms: self.platforms,
                commands,
                sessions: handles::handles_new(),
                boot_time_ms,
                max_sessions: match self.max_sessions {
                    Some(n) => n,
                    None => DEFAULT_MAX_SESSIONS,
                },
                batch_replies: self.batch_replies,
                idle_timeout_ms: match self.idle_timeout_ms {
                    Some(ms) => ms,
                    None => session::DEFAULT_IDLE_TIMEOUT,
                },
            },
        )
    }
}

// ── Laws ────────────────────────────────────────────────────────────────

/// A message from before the engine started is dropped, whatever it says; one
/// without a time never is.
pub proof fn stale_messages_are_dropped(e: Engine, msg: types::MessageView)
    ensures
        msg.timestamp_ms != 0 && msg.timestamp_ms < e.boot() ==> routed(e, msg)
            == RouteView::Stale,
        msg.timestamp_ms == 0 || msg.timestamp_ms >= e.boot() ==> routed(e, msg)
            != RouteView::Stale,
{
}

/// The cap holds: where a session may start, the live sessions are within the
/// cap afterwards.
pub proof fn cap_is_kept(
    m: Map<Seq<char>, u64>,
    n: nat,
    cap: nat,
    key: Seq<char>,
    handle: u64,
    agent: Seq<char>,
    agents: Seq<Seq<char>>,
    resume: Option<Seq<char>>,
)
    requires
        handles::counts(m, n),
        cap > 0,
        claimed(handles::at(m, key), n, cap, agent, agents, resume) is Start,
    ensures
        handles::counts(m.insert(key, handle), n + 1),
        n + 1 <= cap,
{
    assert(m.insert(key, handle).dom() =~= m.dom().insert(key));
}

/// A conversation with a live session is never refused, even at the cap.
pub proof fn live_session_is_used(
    m: Map<Seq<char>, u64>,
    n: nat,
    cap: nat,
    key: Seq<char>,
    agent: Seq<char>,
    agents: Seq<Seq<char>>,
    resume: Option<Seq<char>>,
)
    requires
        m.contains_key(key),
    ensures
        claimed(handles::at(m, key), n, cap, agent, agents, resume) == ClaimView::Existing(m[key]),
{
}

/// A conversation that is recorded under a session id goes on with that agent
/// and that id, as soon as it has no live session and there is room.
pub proof fn recorded_session_is_resumed(
    e: registry::RegistryView,
    n: nat,
    cap: nat,
    agent: Seq<char>,
    id: Seq<char>,
    agents: Seq<Seq<char>>,
)
    requires
        agents.contains(agent),
        cap == 0 || n < cap,
    ensures
        ({
            let next = e.recorded(agent, id);
            claimed(None, n, cap, next.agent, agents, next.active)
        }) == (ClaimView::Start { agent, resume: Some(id) }),
{
}

/// A conversation whose session is archived starts afresh with the same agent.
pub proof fn reset_conversation_starts_afresh(
    e: registry::RegistryView,
    n: nat,
    cap: nat,
    agents: Seq<Seq<char>>,
)
    requires
        agents.contains(e.agent),
        cap == 0 || n < cap,
    ensures
        claimed(None, n, cap, e.archived().agent, agents, e.archived().active) == (
        ClaimView::Start { agent: e.agent, resume: None }),
{
}

/// A conversation that is switched over starts afresh with the new agent.
pub proof fn switched_conversation_starts_with_the_new_agent(
    e: registry::RegistryView,
    n: nat,
    cap: nat,
    agent: Seq<char>,
    agents: Seq<Seq<char>>,
)
    requires
        agents.contains(agent),
        cap == 0 || n < cap,
    ensures
        ({
            let next = e.archived().with_agent(agent);
            claimed(None, n, cap, next.agent, agents, next.active)
        }) == (ClaimView::Start { agent, resume: None }),
{
}

/// A text that is addressed to no registered agent goes on as it is.
pub proof fn unknown_address_falls_through(raw: Seq<char>, agents: Seq<Seq<char>>)
    requires
        ({
            let t = text::trim(raw);
            t.len() == 0 || t[0] != '@' || !agents.contains(
                t.drop_first().take(word_length(t.drop_first())),
            )
        }),
    ensures
        addressed(raw, agents) == (RouteView::Prompt { agent: None, prompt: raw }),
{
}

proof fn lemma_trimmed_front(s: Seq<char>)
    ensures
        text::trim_start(s).len() > 0 ==> !text::is_white(text::trim_start(s)[0]),
    decreases s.len(),
{
    if s.len() > 0 && text::is_white(s[0]) {
        lemma_trimmed_front(s.drop_first());
    }
}

proof fn lemma_trimmed_back(s: Seq<char>)
    ensures
        text::trim_end(s).is_prefix_of(s),
    decreases s.len(),
{
    if s.len() > 0 && text::is_white(s.last()) {
        lemma_trimmed_back(s.drop_last());
    }
}

/// What the user says reaches the agent of the conversation word for word, with
/// the white space around it: a fresh text that starts neither a command nor an
/// address is the prompt.
pub proof fn plain_text_is_forwarded(e: Engine, msg: types::MessageView)
    requires
        msg.timestamp_ms == 0 || msg.timestamp_ms >= e.boot(),
        text::trim(msg.text).len() > 0 ==> text::trim(msg.text)[0] != '/' && text::trim(msg.text)[0]
            != '@',
    ensures
        routed(e, msg) == (RouteView::Prompt { agent: None, prompt: msg.text }),
{
    let t = text::trim(msg.text);
    lemma_trimmed_front(msg.text);
    lemma_trimmed_back(text::trim_start(msg.text));
    assert(text::trim_start(t) == t);
}

/// A command that was offered under a name of its own, in whatever spelling it is
/// given, hands its expanded template to the agent of the conversation.
pub proof fn offered_command_is_expanded(
    e: Engine,
    extra: Seq<commands::CommandView>,
    i: int,
    raw: Seq<char>,
    name: Seq<char>,
    args: Seq<Seq<char>>,
)
    requires
        e.wf(),
        commands::command_views(e.command_set().all()) == commands::offered(
            builtins::builtin_specs(),
            extra,
        ),
        0 <= i < extra.len(),
        extra[i].source != Source::Builtin,
        commands::named(builtins::builtin_specs(), commands::normal(extra[i].name)) is None,
        forall|j: int|
            0 <= j < extra.len() && j != i ==> commands::normal(#[trigger] extra[j].name)
                != commands::normal(extra[i].name),
        commands::command_line(text::trim(raw)) == Some((name, args)),
        commands::normal(name) == commands::normal(extra[i].name),
    ensures
        routed_text(e, raw) == (RouteView::Prompt {
            agent: None,
            prompt: commands::expansion(extra[i].template, args),
        }),
{
    builtins::builtin_commands_are_distinct();
    commands::free_command_is_found(builtins::builtin_specs(), extra, i);
    e.command_set().lemma_named(commands::normal(name));
}

/// The name of a command may be spelled in any way: two lines that differ only in
/// that go to the same place, unless no command has the name.
pub proof fn spelling_of_commands_does_not_matter(
    e: Engine,
    raw: Seq<char>,
    other: Seq<char>,
    name: Seq<char>,
    spelled: Seq<char>,
    args: Seq<Seq<char>>,
)
    requires
        commands::command_line(text::trim(raw)) == Some((name, args)),
        commands::command_line(text::trim(other)) == Some((spelled, args)),
        commands::normal(name) == commands::normal(spelled),
    ensures
        routed_text(e, raw) == routed_text(e, other) || (routed_text(e, raw) is Unknown
            && routed_text(e, other) is Unknown),
{
}

/// A slash and `help` in any spelling, in capitals too, ask for the same answer,
/// which starts with its heading, whatever commands were added.
#[verifier::spinoff_prover]
pub proof fn help_is_the_same_in_every_spelling(
    e: Engine,
    extra: Seq<commands::CommandView>,
    msg: types::MessageView,
    spelled: Seq<char>,
)
    requires
        e.wf(),
        commands::command_views(e.command_set().all()) == commands::offered(
            builtins::builtin_specs(),
            extra,
        ),
        text::all_ascii(spelled),
        text::lower_ascii(spelled) == "help"@,
        msg.text == "/"@ + spelled,
        msg.timestamp_ms == 0 || msg.timestamp_ms >= e.boot(),
    ensures
        routed(e, msg) == (RouteView::Builtin { name: "help"@, args: Seq::empty() }),
        routed(e, msg) == routed(e, types::MessageView { text: "/help"@, ..msg }),
        builtins::planned("help"@, Seq::empty()) is ShowHelp,
        "Available commands:"@.is_prefix_of(
            builtins::help_text(builtins::by_name(e.command_set().all())),
        ),
{
    lemma_help(e, extra, spelled);
    assert(text::all_ascii("help"@) && text::lower_ascii("help"@) == "help"@) by {
        reveal_strlit("help");
        assert(text::lower_ascii("help"@) =~= "help"@);
    }
    assert("/help"@ == "/"@ + "help"@) by {
        reveal_strlit("help");
        reveal_strlit("/help");
        reveal_strlit("/");
        assert("/help"@ =~= "/"@ + "help"@);
    }
    lemma_help(e, extra, "help"@);
    builtins::help_starts_with_its_heading(builtins::by_name(e.command_set().all()));
}

proof fn lemma_help(e: Engine, extra: Seq<commands::CommandView>, spelled: Seq<char>)
    requires
        e.wf(),
        commands::command_views(e.command_set().all()) == commands::offered(
            builtins::builtin_specs(),
            extra,
        ),
        text::all_ascii(spelled),
        text::lower_ascii(spelled) == "help"@,
    ensures
        routed_text(e, "/"@ + spelled) == (RouteView::Builtin {
            name: "help"@,
            args: Seq::empty(),
        }),
{
    let all = builtins::builtin_specs();
    assert(builtins::builtin_names()[0] == "help"@);
    builtins::spelled_name_is_normalized(spelled, 0);
    commands::slashed_word_is_a_command(spelled);
    builtins::builtin_commands_are_distinct();
    builtins::lemma_help_name();
    assert(all[0].name == "help"@);
    commands::lemma_placed(all, 0);
    commands::builtin_names_stay(all, extra, "help"@);
    e.command_set().lemma_named("help"@);
}

proof fn lemma_word_length(w: Seq<char>, rest: Seq<char>)
    requires
        forall|i: int| 0 <= i < w.len() ==> !text::is_white(#[trigger] w[i]),
        rest.len() == 0 || text::is_white(rest[0]),
    ensures
        word_length(w + rest) == w.len(),
    decreases w.len(),
{
    let s = w + rest;
    if w.len() == 0 {
        assert(s =~= rest);
    } else {
        let v = w.drop_first();
        assert(s[0] == w[0]);
        assert(s.drop_first() =~= v + rest);
        assert forall|i: int| 0 <= i < v.len() implies !text::is_white(#[trigger] v[i]) by {
            assert(v[i] == w[i + 1]);
        }
        lemma_word_length(v, rest);
    }
}

/// `@name` and a text go to the agent of that name, which gets the text without its
/// address. The address of nobody, or one with nothing behind it, is a text like any
/// other.
pub proof fn addressed_text_goes_to_that_agent(e: Engine, name: Seq<char>, prompt: Seq<char>)
    requires
        name.len() > 0,
        forall|i: int| 0 <= i < name.len() ==> !text::is_white(#[trigger] name[i]),
        prompt.len() > 0,
        !text::is_white(prompt[0]),
        !text::is_white(prompt.last()),
    ensures
        e.agent_names().contains(name) ==> routed_text(e, "@"@ + name + " "@ + prompt) == (
        RouteView::Prompt { agent: Some(name), prompt }),
        !e.agent_names().contains(name) ==> routed_text(e, "@"@ + name + " "@ + prompt) == (
        RouteView::Prompt { agent: None, prompt: "@"@ + name + " "@ + prompt }),
        routed_text(e, "@"@ + name) == (RouteView::Prompt { agent: None, prompt: "@"@ + name }),
{
    reveal_strlit("@");
    reveal_strlit(" ");
    let raw = "@"@ + name + " "@ + prompt;
    assert(raw[0] == '@');
    assert(raw.last() == prompt.last());
    text::lemma_trim_same(raw);
    let s = raw.drop_first();
    let tail = " "@ + prompt;
    assert(tail[0] == ' ');
    assert(s =~= name + tail);
    lemma_word_length(name, tail);
    assert(s.take(name.len() as int) =~= name);
    assert(s.skip(name.len() as int) =~= tail);
    assert(tail.drop_first() =~= prompt);
    text::lemma_trim_same(prompt);
    assert(text::trim(tail) == prompt);
    assert(commands::command_line(raw) is None);
    let bare = "@"@ + name;
    assert(bare[0] == '@');
    assert(bare.last() == name[name.len() - 1]);
    text::lemma_trim_same(bare);
    let none = Seq::<char>::empty();
    assert(bare.drop_first() =~= name + none);
    lemma_word_length(name, none);
    assert(bare.drop_first().skip(name.len() as int) =~= none);
    assert(text::trim(none).len() == 0);
    assert(commands::command_line(bare) is None);
}

/// A built-in command is run with the words behind it, under its plain name; a
/// command that nobody offers is refused by name; any other is a template, which is
/// filled in with the words behind it.
pub proof fn slashed_text_is_a_command(e: Engine, name: Seq<char>, rest: Seq<char>)
    requires
        name.len() > 0,
        forall|i: int| 0 <= i < name.len() ==> !text::is_white(#[trigger] name[i]) && name[i] != '"',
        rest.len() > 0,
        !text::is_white(rest.last()),
    ensures
        ({
            let raw = "/"@ + name + " "@ + rest;
            let args = commands::words(rest, Seq::empty(), false);
            match e.command_set().lookup(commands::normal(name)) {
                None => routed_text(e, raw) == (RouteView::Unknown {
                    reply: "unknown command `/"@ + name + "` — try /help"@,
                }),
                Some(c) => {
                    &&& c.source is Builtin ==> routed_text(e, raw) == (RouteView::Builtin {
                        name: commands::normal(name),
                        args,
                    })
                    &&& !(c.source is Builtin) ==> routed_text(e, raw) == (RouteView::Prompt {
                        agent: None,
                        prompt: commands::expansion(c.template@, args),
                    })
                },
            }
        }),
{
    reveal_strlit("/");
    let raw = "/"@ + name + " "@ + rest;
    assert(raw[0] == '/');
    assert(raw.last() == rest.last());
    text::lemma_trim_same(raw);
    commands::slash_starts_a_command(name, rest, rest);
}

/// A conversation without a live session gets one if there is room and its agent
/// is known: a limit of zero is no limit. Otherwise the user is told that the bridge
/// is full, or the error names the agent.
pub proof fn sessions_start_where_there_is_room(
    count: nat,
    cap: nat,
    agent: Seq<char>,
    agents: Seq<Seq<char>>,
    resume: Option<Seq<char>>,
)
    ensures
        (cap == 0 || count < cap) && agents.contains(agent) ==> claimed(
            None,
            count,
            cap,
            agent,
            agents,
            resume,
        ) == (ClaimView::Start { agent, resume }),
        (cap == 0 || count < cap) && !agents.contains(agent) ==> claimed(
            None,
            count,
            cap,
            agent,
            agents,
            resume,
        ) == (ClaimView::UnknownAgent { error: "unknown agent `"@ + agent + "`"@ }),
        cap > 0 && count >= cap ==> claimed(None, count, cap, agent, agents, resume) == (
        ClaimView::Full {
            reply:
                "⚠️ bridge is at capacity (too many active sessions). Try /new on an idle conversation or wait a moment."@,
            error: "max_sessions ("@ + text::decimal(cap) + ") reached"@,
        }),
{
}

/// The agent of a conversation is the one on record, else the default one; its
/// session on record is the one that a new start resumes.
pub proof fn recorded_agent_is_used(e: Engine, key: Seq<char>, entry: RegistryEntry)
    requires
        !e.live_sessions().contains_key(key),
        e.cap() == 0,
        e.agent_names().contains(entry.agent@),
        e.agent_names().contains(e.default_name()),
    ensures
        e.claim_in(key, Some(entry)) == (ClaimView::Start {
            agent: entry.agent@,
            resume: text::opt_text(entry.active_session_id),
        }),
        e.claim_in(key, None) == (ClaimView::Start { agent: e.default_name(), resume: None }),
{
}

/// An engine needs a default agent that it knows and a platform, and says which is
/// missing.
pub proof fn engine_needs_agent_and_platform(b: EngineBuilder, name: String)
    ensures
        b.default_agent is None ==> b.problem() == Some("default_agent required"@),
        b.default_agent == Some(name) && !text::texts(b.agents@).contains(name@) ==> b.problem()
            == Some("default_agent `"@ + name@ + "` not registered"@),
        b.default_agent == Some(name) && text::texts(b.agents@).contains(name@)
            && b.platforms@.len() == 0 ==> b.problem() == Some("platform required"@),
        b.default_agent == Some(name) && text::texts(b.agents@).contains(name@)
            && b.platforms@.len() > 0 ==> b.problem() is None,
        DEFAULT_MAX_SESSIONS == 96,
{
}

/// A name that is added is there once, and the others stay.
pub proof fn added_name_is_there_once(v: Seq<Seq<char>>, s: Seq<char>, t: Seq<char>)
    requires
        v.no_duplicates(),
    ensures
        with_text(v, s).contains(s),
        with_text(v, s).no_duplicates(),
        t != s ==> (with_text(v, s).contains(t) <==> v.contains(t)),
{
    let w = with_text(v, s);
    if !v.contains(s) {
        assert(w[v.len() as int] == s);
        if v.contains(t) {
            let i = choose|i: int| 0 <= i < v.len() && v[i] == t;
            assert(w[i] == t);
        }
        if w.contains(t) && t != s {
            let i = choose|i: int| 0 <= i < w.len() && w[i] == t;
            assert(v[i] == t);
        }
    }
}

/// An unknown agent is refused with the names of those that are known.
pub proof fn unknown_agent_is_named(agent: Seq<char>, agents: Seq<Seq<char>>)
    ensures
        unknown_agent(agent, agents) == "unknown agent `"@ + agent + "` (available: "@ + text::join(
            agents,
            ", "@,
        ) + ")"@,
{
}

} // verus!
