//! The actor of a live session: what it does for each command from the engine,
//! each event of the agent and each timer.
//!
//! Streaming throttle: partial chunks are buffered and sent every
//! `FLUSH_INTERVAL` or every `FLUSH_THRESHOLD_BYTES`, whichever comes first. A
//! chunk that is not partial, or the end of a turn, always sends what is left.
//!
//! In batch mode partial text is never sent mid-stream: the actor waits for the
//! complete text and sends it as a single message.
//!
//! Times are milliseconds of a clock that never goes back.

use vstd::prelude::*;
use vstd::string::*;

use crate::split;
use crate::text;
use crate::types;
use crate::types::{Attachment, Event, ReplyCtx};

verus! {

/// How many commands may wait for an actor.
pub const INBOX_CAP: usize = 32;

/// The longest time that buffered text waits, in milliseconds.
pub const FLUSH_INTERVAL: u64 = 1_200;

/// The bytes of buffered text that are sent at once.
pub const FLUSH_THRESHOLD_BYTES: usize = 240;

/// How often the typing indicator is shown, in milliseconds.
pub const THINKING_INTERVAL: u64 = 15_000;

/// How long a session may be idle, in milliseconds.
pub const DEFAULT_IDLE_TIMEOUT: u64 = 1_800_000;

/// A command from the engine to the actor of a session.
#[derive(Debug)]
pub enum Cmd {
    Send { prompt: String, attachments: Vec<Attachment>, reply_ctx: ReplyCtx },
    Permission { id: String, allow: bool },
    Close,
}

/// What the actor asks its surroundings to do.
#[derive(Debug, PartialEq, Eq)]
pub enum Action {
    /// Post a text to the chat.
    Reply(String),
    /// Post a file; where that fails, post `upload_failure`.
    SendAttachment(Attachment),
    /// Show the typing indicator.
    ShowTyping,
    /// Hand the user's turn to the agent, then report how that went.
    Prompt { prompt: String, attachments: Vec<Attachment> },
    /// Answer a permission request of the agent.
    Answer { id: String, allow: bool },
    /// Forget the session id that a next spawn would resume.
    ClearActive,
    /// Record the session id under which the conversation goes on.
    RecordDone(String),
    /// Close the agent session and stop.
    Stop,
}

pub enum ActionView {
    Reply(Seq<char>),
    SendAttachment(types::AttachmentView),
    ShowTyping,
    Prompt { prompt: Seq<char>, attachments: Seq<Attachment> },
    Answer { id: Seq<char>, allow: bool },
    ClearActive,
    RecordDone(Seq<char>),
    Stop,
}

impl View for Action {
    type V = ActionView;

    open spec fn view(&self) -> ActionView {
        match self {
            Action::Reply(t) => ActionView::Reply(t@),
            Action::SendAttachment(a) => ActionView::SendAttachment(a@),
            Action::ShowTyping => ActionView::ShowTyping,
            Action::Prompt { prompt, attachments } => ActionView::Prompt {
                prompt: prompt@,
                attachments: attachments@,
            },
            Action::Answer { id, allow } => ActionView::Answer { id: id@, allow: *allow },
            Action::ClearActive => ActionView::ClearActive,
            Action::RecordDone(id) => ActionView::RecordDone(id@),
            Action::Stop => ActionView::Stop,
        }
    }
}

/// The views of a list of actions.
pub open spec fn action_views(v: Seq<Action>) -> Seq<ActionView> {
    Seq::new(v.len(), |i: int| v[i]@)
}

// ── Buffering ───────────────────────────────────────────────────────────

/// What an actor knows of the turn in progress.
#[derive(Debug)]
pub struct StreamState {
    /// Text that has not been sent.
    pub buf: String,
    /// When the buffer became non-empty.
    pub buffering_since: Option<u64>,
    /// Whether partial text is never sent.
    pub batch: bool,
    /// True while events arrive and the final reply is still to come.
    pub processing: bool,
    /// When the typing indicator was shown last.
    pub last_thinking: Option<u64>,
    /// How often the typing indicator was shown in this turn.
    pub thinking_count: u64,
    /// True between the user's turn and the first event of the agent, so that
    /// an agent that is still thinking does not count as idle.
    pub waiting_for_response: bool,
}

pub struct StreamView {
    pub buf: Seq<char>,
    pub buffering_since: Option<u64>,
    pub batch: bool,
    pub processing: bool,
    pub last_thinking: Option<u64>,
    pub thinking_count: u64,
    pub waiting_for_response: bool,
}

impl View for StreamState {
    type V = StreamView;

    open spec fn view(&self) -> StreamView {
        StreamView {
            buf: self.buf@,
            buffering_since: self.buffering_since,
            batch: self.batch,
            processing: self.processing,
            last_thinking: self.last_thinking,
            thinking_count: self.thinking_count,
            waiting_for_response: self.waiting_for_response,
        }
    }
}

/// `d` milliseconds after `t`, as far as the clock goes.
pub open spec fn later(t: u64, d: u64) -> u64 {
    if t + d <= u64::MAX {
        (t + d) as u64
    } else {
        u64::MAX
    }
}

fn plus(t: u64, d: u64) -> (r: u64)
    ensures
        r == later(t, d),
{
    if t <= u64::MAX - d {
        t + d
    } else {
        u64::MAX
    }
}

/// Nothing but white space.
pub open spec fn blank(s: Seq<char>) -> bool {
    text::trim(s).len() == 0
}

/// Whether there is nothing but white space.
pub fn is_blank(s: &str) -> (r: bool)
    ensures
        r == blank(s@),
{
    text::trimmed(s).as_str().unicode_len() == 0
}

impl StreamView {
    /// The state in which nothing has happened.
    pub open spec fn fresh(batch: bool) -> StreamView {
        StreamView {
            buf: Seq::empty(),
            buffering_since: None,
            batch,
            processing: false,
            last_thinking: None,
            thinking_count: 0,
            waiting_for_response: false,
        }
    }

    /// When the actor has to act on its own; none while it has no reason to.
    pub open spec fn deadline(self, now: u64) -> Option<u64> {
        let base = match self.last_thinking {
            Some(t) => t,
            None => now,
        };
        if self.waiting_for_response || (self.batch && self.processing) {
            Some(later(base, THINKING_INTERVAL))
        } else if self.batch {
            None
        } else {
            match self.buffering_since {
                Some(t) => Some(later(t, FLUSH_INTERVAL)),
                None => None,
            }
        }
    }

    /// It is known when the indicator was last due while there is one to show.
    pub open spec fn timed(self) -> bool {
        self.processing || self.waiting_for_response ==> self.last_thinking is Some
    }

    pub open spec fn marked(self, now: u64) -> StreamView {
        if self.processing {
            self
        } else {
            StreamView { processing: true, last_thinking: Some(now), ..self }
        }
    }

    pub open spec fn unmarked(self) -> StreamView {
        StreamView { processing: false, last_thinking: None, thinking_count: 0, ..self }
    }

    pub open spec fn discarded(self) -> StreamView {
        StreamView { buf: Seq::empty(), buffering_since: None, ..self }
    }

    pub open spec fn appended(self, t: Seq<char>, now: u64) -> StreamView {
        if t.len() == 0 {
            self
        } else {
            StreamView {
                buf: self.buf + t,
                buffering_since: if self.buf.len() == 0 {
                    Some(now)
                } else {
                    self.buffering_since
                },
                ..self
            }
        }
    }

    /// There is enough buffered text to send.
    pub open spec fn full(self) -> bool {
        !self.batch && split::byte_len(self.buf) >= FLUSH_THRESHOLD_BYTES
    }

    /// The state after the buffered text was sent.
    pub open spec fn flushed(self) -> StreamView {
        self.unmarked().discarded()
    }

    /// Text is buffered exactly while the time is known since when.
    pub open spec fn dated(self) -> bool {
        self.buf.len() > 0 <==> self.buffering_since is Some
    }

    /// The replies that sending the buffered text takes.
    pub open spec fn pending(self) -> Seq<ActionView> {
        said(self.buf)
    }
}

/// The reply that says `t`, none where there is nothing to say.
pub open spec fn said(t: Seq<char>) -> Seq<ActionView> {
    if blank(t) {
        Seq::empty()
    } else {
        seq![ActionView::Reply(t)]
    }
}

impl StreamState {
    pub fn new(batch: bool) -> (r: StreamState)
        ensures
            r@ == StreamView::fresh(batch),
    {
        let buf: String = String::new();
        assert(buf@ =~= Seq::<char>::empty());
        StreamState {
            buf,
            buffering_since: None,
            batch,
            processing: false,
            last_thinking: None,
            thinking_count: 0,
            waiting_for_response: false,
        }
    }

    /// When the actor has to act on its own; none while it has no reason to.
    pub fn next_deadline(&self, now: u64) -> (r: Option<u64>)
        ensures
            r == self@.deadline(now),
    {
        let base: u64 = match self.last_thinking {
            Some(t) => t,
            None => now,
        };
        if self.waiting_for_response || (self.batch && self.processing) {
            Some(plus(base, THINKING_INTERVAL))
        } else if self.batch {
            None
        } else {
            match self.buffering_since {
                Some(t) => Some(plus(t, FLUSH_INTERVAL)),
                None => None,
            }
        }
    }

    pub fn mark_processing(&mut self, now: u64)
        ensures
            final(self)@ == old(self)@.marked(now),
    {
        if !self.processing {
            self.processing = true;
            self.last_thinking = Some(now);
        }
    }

    pub fn clear_processing(&mut self)
        ensures
            final(self)@ == old(self)@.unmarked(),
    {
        self.processing = false;
        self.last_thinking = None;
        self.thinking_count = 0;
    }

    pub fn append_partial(&mut self, text: &str, now: u64)
        ensures
            final(self)@ == old(self)@.appended(text@, now),
    {
        if text.unicode_len() == 0 {
            return;
        }
        if self.buf.as_str().unicode_len() == 0 {
            self.buffering_since = Some(now);
        }
        self.buf.append(text);
    }

    /// Whether there is enough buffered text to send.
    pub fn should_flush(&self) -> (r: bool)
        ensures
            r == self@.full(),
    {
        !self.batch && split::bytes_reach(self.buf.as_str(), FLUSH_THRESHOLD_BYTES)
    }

    pub fn discard_buffer(&mut self)
        ensures
            final(self)@ == old(self)@.discarded(),
    {
        self.buf = String::new();
        assert(self.buf@ =~= Seq::<char>::empty());
        self.buffering_since = None;
    }

    /// Take the buffered text out; it is to be sent unless it is blank.
    pub fn flush(&mut self) -> (r: Vec<Action>)
        ensures
            final(self)@ == old(self)@.flushed(),
            action_views(r@) == old(self)@.pending(),
    {
        let text: String = self.buf.clone();
        self.clear_processing();
        self.discard_buffer();
        say(text)
    }

    /// The typing indicator is shown once more.
    pub fn count_thinking(&mut self, now: u64)
        ensures
            final(self)@ == (StreamView {
                thinking_count: later(old(self)@.thinking_count, 1),
                last_thinking: Some(now),
                ..old(self)@
            }),
    {
        self.thinking_count = plus(self.thinking_count, 1);
        self.last_thinking = Some(now);
    }
}

fn say(t: String) -> (r: Vec<Action>)
    ensures
        action_views(r@) == said(t@),
{
    let mut out: Vec<Action> = Vec::new();
    if !is_blank(t.as_str()) {
        let ghost v = t@;
        out.push(Action::Reply(t));
        assert(action_views(out@) =~= seq![ActionView::Reply(v)]);
    } else {
        assert(action_views(out@) =~= Seq::<ActionView>::empty());
    }
    out
}

// ── Events ──────────────────────────────────────────────────────────────

/// The chat text of a permission request.
pub open spec fn permission_text(p: types::PermissionView) -> Seq<char> {
    "permission for `"@ + p.tool_name + "` (id="@ + p.id + ")\n"@ + p.description + "\nReply `/yes "@
        + p.id + "` or `/no "@ + p.id + "` to decide."@
}

fn permission_message(p: &types::PermissionRequest) -> (r: String)
    ensures
        r@ == permission_text(p@),
{
    let mut out: String = text::concat3("permission for `", p.tool_name.as_str(), "` (id=");
    out.append(p.id.as_str());
    out.append(")\n");
    out.append(p.description.as_str());
    out.append("\nReply `/yes ");
    out.append(p.id.as_str());
    out.append("` or `/no ");
    out.append(p.id.as_str());
    out.append("` to decide.");
    out
}

/// The chat text for a file that could not be posted.
pub fn upload_failure(att: &Attachment, error: &str) -> (r: String)
    ensures
        r@ == "file upload failed for `"@ + (match att.name {
            Some(n) => n@,
            None => "file"@,
        }) + "`: "@ + error@,
{
    let name: String = match &att.name {
        Some(n) => n.clone(),
        None => "file".to_string(),
    };
    let mut out: String = text::concat3("file upload failed for `", name.as_str(), "`: ");
    out.append(error);
    out
}

/// What follows from an event of the agent: the state and the actions.
pub open spec fn event_effect(
    s: StreamView,
    e: types::EventView,
    now: u64,
) -> (StreamView, Seq<ActionView>) {
    match e {
        types::EventView::AssistantText { text, partial } => if partial {
            let t = s.marked(now).appended(text, now);
            if t.full() {
                (t.flushed(), t.pending())
            } else {
                (t, Seq::empty())
            }
        } else {
            let t = s.marked(now).unmarked();
            if t.buf.len() == 0 {
                (t, said(text))
            } else if t.batch {
                (
                    t.flushed(),
                    if blank(text) {
                        t.pending()
                    } else {
                        said(text)
                    },
                )
            } else if text::has_prefix(text, t.buf) {
                (t.discarded(), said(text))
            } else {
                (t.flushed(), t.pending() + said(text))
            }
        },
        types::EventView::AssistantAttachment(att) => (
            s.flushed(),
            s.pending().push(ActionView::SendAttachment(att)),
        ),
        types::EventView::PermissionRequest(p) => (
            s.flushed(),
            s.pending().push(ActionView::Reply(permission_text(p))),
        ),
        types::EventView::ToolStart { name, id } => (s.marked(now), Seq::empty()),
        types::EventView::ToolEnd { id, ok } => (s, Seq::empty()),
        types::EventView::Error(msg) => (
            s.flushed(),
            s.pending().push(ActionView::Reply("⚠️ "@ + msg)).push(ActionView::ClearActive),
        ),
        types::EventView::Done { session_id } => (
            s.flushed(),
            s.pending().push(ActionView::RecordDone(session_id)),
        ),
    }
}

/// What follows from an event of the agent.
pub fn handle_event(state: &mut StreamState, event: Event, now: u64) -> (r: Vec<Action>)
    ensures
        (final(state)@, action_views(r@)) == event_effect(old(state)@, event@, now),
{
    match event {
        Event::AssistantText { text, partial } => {
            state.mark_processing(now);
            if partial {
                state.append_partial(text.as_str(), now);
                if state.should_flush() {
                    state.flush()
                } else {
                    let none: Vec<Action> = Vec::new();
                    assert(action_views(none@) =~= Seq::<ActionView>::empty());
                    none
                }
            } else {
                state.clear_processing();
                if state.buf.as_str().unicode_len() == 0 {
                    say(text)
                } else if state.batch {
                    let left: Vec<Action> = state.flush();
                    if is_blank(text.as_str()) {
                        left
                    } else {
                        say(text)
                    }
                } else if text::starts_with(text.as_str(), state.buf.as_str()) {
                    state.discard_buffer();
                    say(text)
                } else {
                    let mut out: Vec<Action> = state.flush();
                    let ghost first = out@;
                    let mut more: Vec<Action> = say(text);
                    let ghost second = more@;
                    out.append(&mut more);
                    assert(action_views(out@) =~= action_views(first) + action_views(second));
                    out
                }
            }
        },
        Event::AssistantAttachment(att) => {
            let mut out: Vec<Action> = state.flush();
            push_action(&mut out, Action::SendAttachment(att));
            out
        },
        Event::PermissionRequest(p) => {
            let mut out: Vec<Action> = state.flush();
            push_action(&mut out, Action::Reply(permission_message(&p)));
            out
        },
        Event::ToolStart { name: _, id: _ } => {
            state.mark_processing(now);
            let none: Vec<Action> = Vec::new();
            assert(action_views(none@) =~= Seq::<ActionView>::empty());
            none
        },
        Event::ToolEnd { id: _, ok: _ } => {
            let none: Vec<Action> = Vec::new();
            assert(action_views(none@) =~= Seq::<ActionView>::empty());
            none
        },
        Event::Error(msg) => {
            let mut out: Vec<Action> = state.flush();
            push_action(&mut out, Action::Reply(text::concat2("⚠️ ", msg.as_str())));
            push_action(&mut out, Action::ClearActive);
            out
        },
        Event::Done { session_id } => {
            let mut out: Vec<Action> = state.flush();
            push_action(&mut out, Action::RecordDone(session_id));
            out
        },
    }
}

fn push_action(v: &mut Vec<Action>, a: Action)
    ensures
        action_views(final(v)@) == action_views(old(v)@).push(a@),
{
    let ghost before = v@;
    v.push(a);
    assert(action_views(v@) =~= action_views(before).push(a@));
}

// ── The actor ───────────────────────────────────────────────────────────

/// An actor between two inputs.
#[derive(Debug)]
pub struct Actor {
    pub stream: StreamState,
    pub reply_ctx: ReplyCtx,
    pub last_activity: u64,
    pub idle_timeout: u64,
}

pub struct ActorView {
    pub stream: StreamView,
    pub reply_ctx: types::ReplyCtxView,
    pub last_activity: u64,
    pub idle_timeout: u64,
}

impl View for Actor {
    type V = ActorView;

    open spec fn view(&self) -> ActorView {
        ActorView {
            stream: self.stream@,
            reply_ctx: self.reply_ctx@,
            last_activity: self.last_activity,
            idle_timeout: self.idle_timeout,
        }
    }
}

/// What reaches an actor.
#[derive(Debug)]
pub enum Input {
    Command(Cmd),
    /// Nobody can send commands any more.
    InboxClosed,
    AgentEvent(Event),
    /// The agent will not send events any more.
    EventsEnded,
    /// The deadline of the actor has passed.
    Timer,
    /// The agent took the user's turn.
    PromptSent,
    /// The agent refused the user's turn.
    PromptFailed(String),
}

impl ActorView {
    /// The session has been idle for too long: no activity within the timeout,
    /// nothing in progress and no answer pending.
    pub open spec fn idle(self, now: u64) -> bool {
        now - self.last_activity >= self.idle_timeout && !self.working()
    }

    /// The agent is at work: it has a turn in progress or has yet to answer one.
    pub open spec fn working(self) -> bool {
        self.stream.processing || self.stream.waiting_for_response
    }

    /// When the actor acts on its own. The idle timeout runs only while the agent
    /// is not at work.
    pub open spec fn deadline(self, now: u64) -> Option<u64> {
        let idle = later(self.last_activity, self.idle_timeout);
        match self.stream.deadline(now) {
            Some(d) => if self.working() || d < idle {
                Some(d)
            } else {
                Some(idle)
            },
            None => if self.working() {
                None
            } else {
                Some(idle)
            },
        }
    }

    /// The actor sends what is left and stops.
    pub open spec fn stopping(self) -> (ActorView, Seq<ActionView>) {
        (
            ActorView { stream: self.stream.flushed(), ..self },
            self.stream.pending().push(ActionView::Stop),
        )
    }
}

/// What follows from an input: the actor and the actions.
pub open spec fn actor_effect(a: ActorView, input: Input, now: u64) -> (
    ActorView,
    Seq<ActionView>,
) {
    match input {
        Input::Command(Cmd::Send { prompt, attachments, reply_ctx }) => (
            ActorView {
                stream: a.stream.discarded(),
                reply_ctx: reply_ctx@,
                last_activity: now,
                ..a
            },
            seq![ActionView::Prompt { prompt: prompt@, attachments: attachments@ }],
        ),
        Input::Command(Cmd::Permission { id, allow }) => (
            ActorView { last_activity: now, ..a },
            seq![ActionView::Answer { id: id@, allow }],
        ),
        Input::Command(Cmd::Close) => a.stopping(),
        Input::InboxClosed => a.stopping(),
        Input::EventsEnded => a.stopping(),
        Input::AgentEvent(e) => {
            let (s, actions) = event_effect(
                StreamView { waiting_for_response: false, ..a.stream },
                e@,
                now,
            );
            (ActorView { stream: s, last_activity: now, ..a }, actions)
        },
        Input::Timer => if a.idle(now) {
            a.stopping()
        } else if (a.stream.batch && a.stream.processing) || a.stream.waiting_for_response {
            (
                ActorView {
                    stream: StreamView {
                        thinking_count: later(a.stream.thinking_count, 1),
                        last_thinking: Some(now),
                        ..a.stream
                    },
                    ..a
                },
                seq![ActionView::ShowTyping],
            )
        } else {
            (ActorView { stream: a.stream.flushed(), ..a }, a.stream.pending())
        },
        Input::PromptSent => (
            ActorView {
                stream: StreamView {
                    waiting_for_response: true,
                    last_thinking: Some(now),
                    ..a.stream
                },
                ..a
            },
            Seq::empty(),
        ),
        Input::PromptFailed(e) => (a, seq![ActionView::Reply("agent error: "@ + e@)]),
    }
}

impl Actor {
    pub fn new(batch: bool, reply_ctx: ReplyCtx, idle_timeout: u64, now: u64) -> (r: Actor)
        ensures
            r@ == (ActorView {
                stream: StreamView::fresh(batch),
                reply_ctx: reply_ctx@,
                last_activity: now,
                idle_timeout,
            }),
    {
        Actor { stream: StreamState::new(batch), reply_ctx, last_activity: now, idle_timeout }
    }

    /// When the actor acts on its own; none where it waits for others.
    pub fn next_deadline(&self, now: u64) -> (r: Option<u64>)
        ensures
            r == self@.deadline(now),
    {
        let idle: u64 = plus(self.last_activity, self.idle_timeout);
        let working: bool = self.stream.processing || self.stream.waiting_for_response;
        match self.stream.next_deadline(now) {
            Some(d) => if working || d < idle {
                Some(d)
            } else {
                Some(idle)
            },
            None => if working {
                None
            } else {
                Some(idle)
            },
        }
    }

    fn stop(&mut self) -> (r: Vec<Action>)
        ensures
            (final(self)@, action_views(r@)) == old(self)@.stopping(),
    {
        let mut out: Vec<Action> = self.stream.flush();
        push_action(&mut out, Action::Stop);
        out
    }

    /// What follows from an input.
    pub fn step(&mut self, input: Input, now: u64) -> (r: Vec<Action>)
        ensures
            (final(self)@, action_views(r@)) == actor_effect(old(self)@, input, now),
    {
        match input {
            Input::Command(Cmd::Send { prompt, attachments, reply_ctx }) => {
                self.last_activity = now;
                self.reply_ctx = reply_ctx;
                self.stream.discard_buffer();
                one_action(Action::Prompt { prompt, attachments })
            },
            Input::Command(Cmd::Permission { id, allow }) => {
                self.last_activity = now;
                one_action(Action::Answer { id, allow })
            },
            Input::Command(Cmd::Close) => self.stop(),
            Input::InboxClosed => self.stop(),
            Input::EventsEnded => self.stop(),
            Input::AgentEvent(e) => {
                self.last_activity = now;
                self.stream.waiting_for_response = false;
                handle_event(&mut self.stream, e, now)
            },
            Input::Timer => {
                let idle: bool = now >= self.last_activity && now - self.last_activity
                    >= self.idle_timeout;
                if idle && !self.stream.processing && !self.stream.waiting_for_response {
                    self.stop()
                } else if (self.stream.batch && self.stream.processing)
                    || self.stream.waiting_for_response {
                    self.stream.count_thinking(now);
                    one_action(Action::ShowTyping)
                } else {
                    self.stream.flush()
                }
            },
            Input::PromptSent => {
                self.stream.waiting_for_response = true;
                self.stream.last_thinking = Some(now);
                let none: Vec<Action> = Vec::new();
                assert(action_views(none@) =~= Seq::<ActionView>::empty());
                none
            },
            Input::PromptFailed(e) => one_action(
                Action::Reply(text::concat2("agent error: ", e.as_str())),
            ),
        }
    }
}

fn one_action(a: Action) -> (r: Vec<Action>)
    ensures
        action_views(r@) == seq![a@],
{
    let mut out: Vec<Action> = Vec::new();
    let ghost v = a@;
    out.push(a);
    assert(action_views(out@) =~= seq![v]);
    out
}

// ── Laws ────────────────────────────────────────────────────────────────

/// In batch mode partial text is never sent: it only joins the buffer.
pub proof fn batch_mode_keeps_partial_text(s: StreamView, t: Seq<char>, now: u64)
    requires
        s.batch,
    ensures
        event_effect(s, types::EventView::AssistantText { text: t, partial: true }, now).1.len()
            == 0,
        event_effect(s, types::EventView::AssistantText { text: t, partial: true }, now).0.buf
            == s.buf + t,
{
    assert(s.buf + Seq::<char>::empty() =~= s.buf);
    assert(t.len() == 0 ==> t =~= Seq::<char>::empty());
}

/// The text of chunks that arrived one after the other, each at its time.
pub open spec fn chunk_text(v: Seq<(Seq<char>, u64)>) -> Seq<char>
    decreases v.len(),
{
    if v.len() == 0 {
        Seq::empty()
    } else {
        chunk_text(v.drop_last()) + v.last().0
    }
}

/// What follows from chunks that arrive one after the other.
pub open spec fn after_chunks(s: StreamView, v: Seq<(Seq<char>, u64)>) -> (
    StreamView,
    Seq<ActionView>,
)
    decreases v.len(),
{
    if v.len() == 0 {
        (s, Seq::empty())
    } else {
        let (t, sent) = after_chunks(s, v.drop_last());
        let (u, more) = event_effect(
            t,
            types::EventView::AssistantText { text: v.last().0, partial: true },
            v.last().1,
        );
        (u, sent + more)
    }
}

/// In batch mode chunks are only collected, however many there are.
pub proof fn batch_mode_collects_chunks(s: StreamView, v: Seq<(Seq<char>, u64)>)
    requires
        s.batch,
    ensures
        after_chunks(s, v).0.batch,
        after_chunks(s, v).0.buf == s.buf + chunk_text(v),
        after_chunks(s, v).1.len() == 0,
    decreases v.len(),
{
    if v.len() == 0 {
        assert(s.buf + chunk_text(v) =~= s.buf);
    } else {
        batch_mode_collects_chunks(s, v.drop_last());
        let t = after_chunks(s, v.drop_last()).0;
        batch_mode_keeps_partial_text(t, v.last().0, v.last().1);
        assert(s.buf + chunk_text(v) =~= (s.buf + chunk_text(v.drop_last())) + v.last().0);
    }
}

/// A batch turn posts one message: chunks, whatever they say, and then the
/// complete text give that text once and nothing else.
pub proof fn batch_turn_is_one_message(
    s: StreamView,
    v: Seq<(Seq<char>, u64)>,
    t: Seq<char>,
    now: u64,
)
    requires
        s.batch,
        s.buf.len() == 0,
        !blank(t),
    ensures
        ({
            let (s1, r1) = after_chunks(s, v);
            let (s2, r2) = event_effect(
                s1,
                types::EventView::AssistantText { text: t, partial: false },
                now,
            );
            r1 + r2 == seq![ActionView::Reply(t)] && s2.buf.len() == 0
        }),
{
    batch_mode_collects_chunks(s, v);
    assert(s.buf + chunk_text(v) =~= chunk_text(v));
    assert(after_chunks(s, v).1 =~= Seq::<ActionView>::empty());
}

/// A batch turn that ends without a complete text posts its chunks as one
/// message.
pub proof fn batch_turn_of_chunks_is_one_message(
    s: StreamView,
    v: Seq<(Seq<char>, u64)>,
    session_id: Seq<char>,
    now: u64,
)
    requires
        s.batch,
        s.buf.len() == 0,
        !blank(chunk_text(v)),
    ensures
        ({
            let (s1, r1) = after_chunks(s, v);
            let (s2, r2) = event_effect(s1, types::EventView::Done { session_id }, now);
            r1 + r2 == seq![
                ActionView::Reply(chunk_text(v)),
                ActionView::RecordDone(session_id),
            ] && s2.buf.len() == 0
        }),
{
    batch_mode_collects_chunks(s, v);
    assert(s.buf + chunk_text(v) =~= chunk_text(v));
    let r = after_chunks(s, v).1 + event_effect(
        after_chunks(s, v).0,
        types::EventView::Done { session_id },
        now,
    ).1;
    assert(r =~= seq![ActionView::Reply(chunk_text(v)), ActionView::RecordDone(session_id)]);
}

/// Whatever reaches an actor, text is in its buffer exactly while the time is
/// known since when it is there.
pub proof fn buffered_text_is_dated(a: ActorView, input: Input, now: u64)
    requires
        a.stream.dated(),
    ensures
        actor_effect(a, input, now).0.stream.dated(),
{
}

/// Outside batch mode buffered text waits no longer than the flush interval:
/// that is when the actor acts at the latest, and what it then does is send it.
pub proof fn buffered_text_is_sent_in_time(a: ActorView, since: u64, now: u64)
    requires
        !a.stream.batch,
        !a.stream.waiting_for_response,
        a.stream.buffering_since == Some(since),
    ensures
        a.deadline(now) matches Some(d) && d <= later(since, FLUSH_INTERVAL),
        a.stream.processing ==> a.deadline(now) == Some(later(since, FLUSH_INTERVAL)),
        a.stream.pending().is_prefix_of(actor_effect(a, Input::Timer, now).1),
        actor_effect(a, Input::Timer, now).0.stream.buf.len() == 0,
{
}

/// While the agent works on a batch turn, or has yet to answer one, the indicator
/// is shown once after each interval, however long that takes, and nothing is
/// posted.
pub proof fn typing_is_shown_at_intervals(a: ActorView, shown: u64, now: u64, later_on: u64)
    requires
        (a.stream.batch && a.stream.processing) || a.stream.waiting_for_response,
        a.stream.last_thinking == Some(shown),
    ensures
        a.deadline(now) == Some(later(shown, THINKING_INTERVAL)),
        actor_effect(a, Input::Timer, now).1 == seq![ActionView::ShowTyping],
        actor_effect(a, Input::Timer, now).0.stream.last_thinking == Some(now),
        actor_effect(a, Input::Timer, now).0.stream.buf == a.stream.buf,
        actor_effect(a, Input::Timer, now).0.deadline(later_on) == Some(
            later(now, THINKING_INTERVAL),
        ),
{
}

/// Whatever reaches an actor, it stops or knows when the indicator was last due
/// while there is one to show.
pub proof fn indicator_is_timed(a: ActorView, input: Input, now: u64)
    requires
        a.stream.timed(),
    ensures
        actor_effect(a, input, now).0.stream.timed() || actor_effect(a, input, now).1.last()
            == ActionView::Stop,
{
}

/// The timer ends a session only where nothing happened for the whole timeout
/// and the agent is not at work; then its next deadline is the end of that time.
pub proof fn idle_session_ends_after_the_timeout(a: ActorView, now: u64)
    requires
        !a.working(),
        a.stream.buffering_since is None,
    ensures
        a.deadline(now) == Some(later(a.last_activity, a.idle_timeout)),
        actor_effect(a, Input::Timer, now).1.contains(ActionView::Stop) <==> now - a.last_activity
            >= a.idle_timeout,
{
    let r = actor_effect(a, Input::Timer, now).1;
    if now - a.last_activity >= a.idle_timeout {
        assert(r.last() == ActionView::Stop);
    }
}

/// Outside batch mode, too, a chunk is either buffered or sent whole: what was
/// buffered and the chunk are in the reply or in the buffer, in order.
pub proof fn streamed_text_is_not_lost(s: StreamView, t: Seq<char>, now: u64)
    ensures
        ({
            let (s1, r) = event_effect(
                s,
                types::EventView::AssistantText { text: t, partial: true },
                now,
            );
            (r.len() == 0 && s1.buf == s.buf + t) || (s1.buf.len() == 0 && r == said(s.buf + t))
        }),
{
    assert(s.buf + Seq::<char>::empty() =~= s.buf);
    assert(t.len() == 0 ==> t =~= Seq::<char>::empty());
}

/// Every event that is shown to the user, and the end of a turn, first sends
/// the buffered text and leaves the buffer empty.
pub proof fn closing_events_flush(s: StreamView, e: types::EventView, now: u64)
    requires
        e is AssistantAttachment || e is PermissionRequest || e is Error || e is Done,
    ensures
        event_effect(s, e, now).0 == s.flushed(),
        event_effect(s, e, now).0.buf.len() == 0,
        event_effect(s, e, now).1.len() > s.pending().len(),
        event_effect(s, e, now).1.take(s.pending().len() as int) == s.pending(),
{
    let r = event_effect(s, e, now).1;
    assert(r.take(s.pending().len() as int) =~= s.pending());
}

/// A complete text leaves nothing in the buffer.
pub proof fn complete_text_empties_the_buffer(s: StreamView, t: Seq<char>, now: u64)
    ensures
        event_effect(
            s,
            types::EventView::AssistantText { text: t, partial: false },
            now,
        ).0.buf.len() == 0,
{
}

/// A session is never stopped by the timer while the agent works on a turn or
/// has yet to answer one.
pub proof fn timer_spares_a_working_session(a: ActorView, now: u64)
    requires
        a.working(),
    ensures
        forall|i: int|
            0 <= i < actor_effect(a, Input::Timer, now).1.len() ==> !(
            #[trigger] actor_effect(a, Input::Timer, now).1[i] is Stop),
{
    let r = actor_effect(a, Input::Timer, now).1;
    assert forall|i: int| 0 <= i < r.len() implies !(#[trigger] r[i] is Stop) by {}
}

/// A new turn of the user replaces the reply context and drops what was
/// buffered for an earlier one.
pub proof fn new_turn_moves_the_reply_context(
    a: ActorView,
    prompt: String,
    attachments: Vec<Attachment>,
    ctx: ReplyCtx,
    now: u64,
)
    ensures
        ({
            let (b, r) = actor_effect(
                a,
                Input::Command(Cmd::Send { prompt, attachments, reply_ctx: ctx }),
                now,
            );
            b.reply_ctx == ctx@ && b.stream.buf.len() == 0 && r == seq![
                ActionView::Prompt { prompt: prompt@, attachments: attachments@ },
            ]
        }),
{
}

/// A complete text is posted whole and last, whatever was buffered. It is the only
/// message in batch mode, where nothing else was to be said, and where it starts
/// with the buffered text; otherwise that text goes first.
pub proof fn complete_text_is_posted_whole(s: StreamView, t: Seq<char>, now: u64)
    requires
        text::trim(t).len() > 0,
    ensures
        ({
            let (u, r) = event_effect(
                s,
                types::EventView::AssistantText { text: t, partial: false },
                now,
            );
            let goes_on = s.buf.len() <= t.len() && t.subrange(0, s.buf.len() as int) == s.buf;
            &&& r.len() > 0
            &&& r.last() == ActionView::Reply(t)
            &&& s.batch || goes_on || text::trim(s.buf).len() == 0 ==> r == seq![
                ActionView::Reply(t),
            ]
            &&& !s.batch && !goes_on && text::trim(s.buf).len() > 0 ==> r == seq![
                ActionView::Reply(s.buf),
                ActionView::Reply(t),
            ]
            &&& u.buf.len() == 0
            &&& s.buf.len() > 0 || s.buffering_since is None ==> u.buffering_since is None
            &&& !u.processing
            &&& u.batch == s.batch
        }),
{
    let r = event_effect(s, types::EventView::AssistantText { text: t, partial: false }, now).1;
    if s.buf.len() == 0 {
        assert(t.subrange(0, 0) =~= s.buf);
    }
    if !s.batch && s.buf.len() > 0 && !text::has_prefix(t, s.buf) {
        if text::trim(s.buf).len() > 0 {
            assert(r =~= seq![ActionView::Reply(s.buf), ActionView::Reply(t)]);
        } else {
            assert(r =~= seq![ActionView::Reply(t)]);
        }
    }
}

/// A complete text that says nothing posts nothing but what was buffered, and that
/// only where it does not go on from it.
pub proof fn blank_text_posts_nothing_new(s: StreamView, t: Seq<char>, now: u64)
    requires
        text::trim(t).len() == 0,
    ensures
        ({
            let r = event_effect(
                s,
                types::EventView::AssistantText { text: t, partial: false },
                now,
            ).1;
            r.len() == 0 || (r == seq![ActionView::Reply(s.buf)] && text::trim(s.buf).len() > 0)
        }),
        s.batch && text::trim(s.buf).len() > 0 ==> event_effect(
            s,
            types::EventView::AssistantText { text: t, partial: false },
            now,
        ).1 == seq![ActionView::Reply(s.buf)],
{
    let r = event_effect(s, types::EventView::AssistantText { text: t, partial: false }, now).1;
    if r.len() > 0 {
        assert(r =~= seq![ActionView::Reply(s.buf)]);
    }
}

/// Outside batch mode a chunk waits in the buffer while fewer than 240 bytes are
/// there, and otherwise goes out together with all that waited, in one message.
/// The buffer is dated from the first chunk in it.
pub proof fn chunks_wait_for_enough_text(s: StreamView, t: Seq<char>, now: u64)
    requires
        !s.batch,
        t.len() > 0,
    ensures
        ({
            let (u, r) = event_effect(
                s,
                types::EventView::AssistantText { text: t, partial: true },
                now,
            );
            if split::byte_len(s.buf + t) < 240 {
                &&& r.len() == 0
                &&& u.buf == s.buf + t
                &&& u.processing
                &&& s.buf.len() == 0 ==> u.buffering_since == Some(now)
                &&& s.buf.len() > 0 ==> u.buffering_since == s.buffering_since
            } else {
                &&& u.buf.len() == 0
                &&& u.buffering_since is None
                &&& text::trim(s.buf + t).len() > 0 ==> r == seq![ActionView::Reply(s.buf + t)]
                &&& text::trim(s.buf + t).len() == 0 ==> r.len() == 0
            }
        }),
{
}

/// What each other event of the agent leads to: the buffered text goes out first,
/// then what the event itself says.
pub proof fn other_events_say_their_part(
    s: StreamView,
    att: types::AttachmentView,
    p: types::PermissionView,
    msg: Seq<char>,
    id: Seq<char>,
    name: Seq<char>,
    ok: bool,
    now: u64,
)
    requires
        text::trim(s.buf).len() > 0,
    ensures
        event_effect(s, types::EventView::AssistantAttachment(att), now).1 == seq![
            ActionView::Reply(s.buf),
            ActionView::SendAttachment(att),
        ],
        event_effect(s, types::EventView::PermissionRequest(p), now).1 == seq![
            ActionView::Reply(s.buf),
            ActionView::Reply(
                "permission for `"@ + p.tool_name + "` (id="@ + p.id + ")\n"@ + p.description
                    + "\nReply `/yes "@ + p.id + "` or `/no "@ + p.id + "` to decide."@,
            ),
        ],
        event_effect(s, types::EventView::Error(msg), now).1 == seq![
            ActionView::Reply(s.buf),
            ActionView::Reply("⚠️ "@ + msg),
            ActionView::ClearActive,
        ],
        event_effect(s, types::EventView::Done { session_id: id }, now).1 == seq![
            ActionView::Reply(s.buf),
            ActionView::RecordDone(id),
        ],
        event_effect(s, types::EventView::ToolStart { name, id }, now).1.len() == 0,
        event_effect(s, types::EventView::ToolStart { name, id }, now).0.buf == s.buf,
        event_effect(s, types::EventView::ToolStart { name, id }, now).0.processing,
        event_effect(s, types::EventView::ToolEnd { id, ok }, now) == (s, Seq::<ActionView>::empty()),
{
    assert(event_effect(s, types::EventView::AssistantAttachment(att), now).1 =~= seq![
        ActionView::Reply(s.buf),
        ActionView::SendAttachment(att),
    ]);
    assert(event_effect(s, types::EventView::Error(msg), now).1 =~= seq![
        ActionView::Reply(s.buf),
        ActionView::Reply("⚠️ "@ + msg),
        ActionView::ClearActive,
    ]);
    assert(event_effect(s, types::EventView::Done { session_id: id }, now).1 =~= seq![
        ActionView::Reply(s.buf),
        ActionView::RecordDone(id),
    ]);
    let asked = event_effect(s, types::EventView::PermissionRequest(p), now).1;
    assert(asked.len() == 2);
    assert(asked[0] == ActionView::Reply(s.buf));
    assert(asked =~= seq![asked[0], asked[1]]);
}

/// With nothing buffered, an event says its part and nothing else.
pub proof fn other_events_alone_say_their_part(
    s: StreamView,
    att: types::AttachmentView,
    p: types::PermissionView,
    msg: Seq<char>,
    id: Seq<char>,
    now: u64,
)
    requires
        text::trim(s.buf).len() == 0,
    ensures
        event_effect(s, types::EventView::AssistantAttachment(att), now).1 == seq![
            ActionView::SendAttachment(att),
        ],
        event_effect(s, types::EventView::PermissionRequest(p), now).1.len() == 1,
        event_effect(s, types::EventView::Error(msg), now).1 == seq![
            ActionView::Reply("⚠️ "@ + msg),
            ActionView::ClearActive,
        ],
        event_effect(s, types::EventView::Done { session_id: id }, now).1 == seq![
            ActionView::RecordDone(id),
        ],
{
    assert(event_effect(s, types::EventView::AssistantAttachment(att), now).1 =~= seq![
        ActionView::SendAttachment(att),
    ]);
    assert(event_effect(s, types::EventView::Error(msg), now).1 =~= seq![
        ActionView::Reply("⚠️ "@ + msg),
        ActionView::ClearActive,
    ]);
    assert(event_effect(s, types::EventView::Done { session_id: id }, now).1 =~= seq![
        ActionView::RecordDone(id),
    ]);
}

/// The text that a list of actions posts, one message behind the other.
pub open spec fn posted(v: Seq<ActionView>) -> Seq<char>
    decreases v.len(),
{
    if v.len() == 0 {
        Seq::empty()
    } else {
        posted(v.drop_last()) + (match v.last() {
            ActionView::Reply(t) => t,
            _ => Seq::empty(),
        })
    }
}

proof fn lemma_posted(a: Seq<ActionView>, b: Seq<ActionView>)
    ensures
        posted(a + b) == posted(a) + posted(b),
    decreases b.len(),
{
    if b.len() == 0 {
        assert(a + b =~= a);
        assert(posted(a) + posted(b) =~= posted(a));
    } else {
        lemma_posted(a, b.drop_last());
        assert((a + b).drop_last() =~= a + b.drop_last());
        assert((a + b).last() == b.last());
        assert(posted(a + b) =~= posted(a) + posted(b));
    }
}

proof fn lemma_trim_reaches(a: Seq<char>, i: int)
    requires
        0 <= i < a.len(),
        !text::is_white(a[i]),
    ensures
        text::trim(a).len() > 0,
    decreases a.len(),
{
    text::lemma_trim_keeps_ink(a, i);
}

/// A text that says something says something behind any other.
proof fn lemma_not_blank(a: Seq<char>, b: Seq<char>)
    requires
        text::trim(b).len() > 0,
    ensures
        text::trim(a + b).len() > 0,
{
    text::lemma_ink(b);
    let i = choose|i: int| 0 <= i < b.len() && !text::is_white(#[trigger] b[i]);
    assert((a + b)[a.len() + i] == b[i]);
    lemma_trim_reaches(a + b, a.len() + i);
}

proof fn lemma_streamed(s: StreamView, v: Seq<(Seq<char>, u64)>)
    requires
        !s.batch,
        s.buf.len() == 0,
        forall|i: int| 0 <= i < v.len() ==> text::trim((#[trigger] v[i]).0).len() > 0,
    ensures
        posted(after_chunks(s, v).1) + after_chunks(s, v).0.buf == chunk_text(v),
        !after_chunks(s, v).0.batch,
        after_chunks(s, v).0.buf.len() > 0 ==> text::trim(after_chunks(s, v).0.buf).len() > 0,
    decreases v.len(),
{
    if v.len() == 0 {
        assert(posted(after_chunks(s, v).1) + s.buf =~= chunk_text(v));
    } else {
        let w = v.drop_last();
        assert forall|i: int| 0 <= i < w.len() implies text::trim((#[trigger] w[i]).0).len() > 0 by {
            assert(w[i] == v[i]);
        }
        assert(v[v.len() - 1] == v.last());
        lemma_streamed(s, w);
        let (t, sent) = after_chunks(s, w);
        let c = v.last().0;
        let (u, more) = event_effect(
            t,
            types::EventView::AssistantText { text: c, partial: true },
            v.last().1,
        );
        if c.len() == 0 {
            assert(text::trim(c) =~= c);
        }
        chunks_wait_for_enough_text(t, c, v.last().1);
        lemma_not_blank(t.buf, c);
        lemma_posted(sent, more);
        if more.len() == 0 {
            assert(posted(more) =~= Seq::<char>::empty());
        } else {
            assert(more.drop_last() =~= Seq::<ActionView>::empty());
            assert(posted(more.drop_last()) =~= Seq::<char>::empty());
            assert(more.last() == ActionView::Reply(t.buf + c));
            assert(posted(more) =~= t.buf + c);
        }
        assert(posted(sent + more) + u.buf =~= chunk_text(v));
    }
}

/// A streamed turn posts everything the agent said, once and in order: the
/// messages of the turn, one behind the other, are the chunks one behind the
/// other.
pub proof fn streamed_turn_posts_everything_once(
    s: StreamView,
    v: Seq<(Seq<char>, u64)>,
    session_id: Seq<char>,
    now: u64,
)
    requires
        !s.batch,
        s.buf.len() == 0,
        forall|i: int| 0 <= i < v.len() ==> text::trim((#[trigger] v[i]).0).len() > 0,
    ensures
        ({
            let (s1, r1) = after_chunks(s, v);
            let (s2, r2) = event_effect(s1, types::EventView::Done { session_id }, now);
            posted(r1 + r2) == chunk_text(v) && s2.buf.len() == 0
        }),
{
    lemma_streamed(s, v);
    let (s1, r1) = after_chunks(s, v);
    let r2 = event_effect(s1, types::EventView::Done { session_id }, now).1;
    lemma_posted(r1, r2);
    reveal_with_fuel(posted, 3);
    if s1.buf.len() == 0 {
        assert(text::trim(s1.buf) =~= Seq::<char>::empty());
    }
    if text::trim(s1.buf).len() > 0 {
        assert(r2 =~= seq![ActionView::Reply(s1.buf), ActionView::RecordDone(session_id)]);
        assert(r2.drop_last() =~= seq![ActionView::Reply(s1.buf)]);
        assert(seq![ActionView::Reply(s1.buf)].drop_last() =~= Seq::<ActionView>::empty());
        assert(posted(r2) =~= s1.buf);
    } else {
        assert(r2 =~= seq![ActionView::RecordDone(session_id)]);
        assert(r2.drop_last() =~= Seq::<ActionView>::empty());
        assert(posted(r2) =~= Seq::<char>::empty());
        assert(posted(r1) + posted(r2) =~= posted(r1) + s1.buf);
    }
}

/// What an actor does for what reaches it from the engine: it hands the turn on
/// as it is, answers the permission request of that id as the user did, and says
/// why a turn was refused.
pub proof fn commands_are_carried_out(
    a: ActorView,
    prompt: String,
    attachments: Vec<Attachment>,
    ctx: ReplyCtx,
    id: String,
    allow: bool,
    e: String,
    now: u64,
)
    ensures
        actor_effect(a, Input::Command(Cmd::Send { prompt, attachments, reply_ctx: ctx }), now).1
            == seq![ActionView::Prompt { prompt: prompt@, attachments: attachments@ }],
        actor_effect(
            a,
            Input::Command(Cmd::Send { prompt, attachments, reply_ctx: ctx }),
            now,
        ).0.last_activity == now,
        actor_effect(a, Input::Command(Cmd::Permission { id, allow }), now).1 == seq![
            ActionView::Answer { id: id@, allow },
        ],
        actor_effect(a, Input::Command(Cmd::Permission { id, allow }), now).0 == (ActorView {
            last_activity: now,
            ..a
        }),
        actor_effect(a, Input::PromptFailed(e), now) == (
            a,
            seq![ActionView::Reply("agent error: "@ + e@)],
        ),
        actor_effect(a, Input::PromptSent, now).1.len() == 0,
        actor_effect(a, Input::PromptSent, now).0.stream.waiting_for_response,
        actor_effect(a, Input::PromptSent, now).0.stream.last_thinking == Some(now),
        actor_effect(a, Input::PromptSent, now).0.stream.buf == a.stream.buf,
{
}

/// An event of the agent counts as activity and as an answer; what it leads to
/// goes to the same place as before.
pub proof fn events_are_activity(a: ActorView, e: Event, now: u64)
    ensures
        ({
            let (b, r) = actor_effect(a, Input::AgentEvent(e), now);
            &&& b.last_activity == now
            &&& !b.stream.waiting_for_response
            &&& b.reply_ctx == a.reply_ctx
            &&& b.idle_timeout == a.idle_timeout
            &&& r == event_effect(
                StreamView { waiting_for_response: false, ..a.stream },
                e@,
                now,
            ).1
        }),
{
}

/// A session that is closed, from either side, posts what is left and stops.
pub proof fn closing_posts_what_is_left(a: ActorView, input: Input, now: u64)
    requires
        input matches Input::Command(Cmd::Close) || input is InboxClosed || input is EventsEnded,
    ensures
        text::trim(a.stream.buf).len() > 0 ==> actor_effect(a, input, now).1 == seq![
            ActionView::Reply(a.stream.buf),
            ActionView::Stop,
        ],
        text::trim(a.stream.buf).len() == 0 ==> actor_effect(a, input, now).1 == seq![
            ActionView::Stop,
        ],
{
    if text::trim(a.stream.buf).len() > 0 {
        assert(actor_effect(a, input, now).1 =~= seq![
            ActionView::Reply(a.stream.buf),
            ActionView::Stop,
        ]);
    } else {
        assert(actor_effect(a, input, now).1 =~= seq![ActionView::Stop]);
    }
}

/// When the actor acts on its own, in milliseconds: the indicator is due 15 s
/// after the last one, buffered text 1.2 s after its first chunk, and the end of
/// a session that nothing happens in once its timeout is over.
pub proof fn deadlines_are_the_documented_ones(a: ActorView, t: u64, now: u64)
    requires
        t <= 1_000_000_000_000_000,
        a.last_activity <= 1_000_000_000_000_000,
        a.idle_timeout <= 1_000_000_000_000_000,
    ensures
        a.stream.waiting_for_response && a.stream.last_thinking == Some(t) ==> a.deadline(now)
            == Some((t + 15_000) as u64),
        a.stream.batch && a.stream.processing && a.stream.last_thinking == Some(t) ==> a.deadline(
            now,
        ) == Some((t + 15_000) as u64),
        !a.stream.batch && !a.stream.waiting_for_response && a.stream.processing
            && a.stream.buffering_since == Some(t) ==> a.deadline(now) == Some((t + 1_200) as u64),
        !a.stream.waiting_for_response && !a.stream.processing && a.stream.buffering_since is None
            ==> a.deadline(now) == Some((a.last_activity + a.idle_timeout) as u64),
{
}

/// A question about a permission is asked with its id, also where nothing was said
/// before.
pub proof fn permission_is_asked_with_its_id(s: StreamView, p: types::PermissionView, now: u64)
    ensures
        event_effect(s, types::EventView::PermissionRequest(p), now).1.last() == ActionView::Reply(
            "permission for `"@ + p.tool_name + "` (id="@ + p.id + ")\n"@ + p.description
                + "\nReply `/yes "@ + p.id + "` or `/no "@ + p.id + "` to decide."@,
        ),
{
}

/// What ends a part of the turn leaves the stream as at its start: nothing buffered,
/// nothing under way.
pub proof fn ended_turn_leaves_a_fresh_stream(s: StreamView, e: types::EventView, now: u64)
    requires
        e is AssistantAttachment || e is PermissionRequest || e is Error || e is Done,
    ensures
        event_effect(s, e, now).0 == (StreamView {
            buf: Seq::empty(),
            buffering_since: None,
            batch: s.batch,
            processing: false,
            last_thinking: None,
            thinking_count: 0,
            waiting_for_response: s.waiting_for_response,
        }),
{
}

/// The first sign of work starts the clock of the indicator; later ones leave it.
pub proof fn first_sign_of_work_starts_the_clock(
    s: StreamView,
    name: Seq<char>,
    id: Seq<char>,
    now: u64,
)
    ensures
        ({
            let u = event_effect(s, types::EventView::ToolStart { name, id }, now).0;
            &&& u.processing
            &&& !s.processing ==> u.last_thinking == Some(now)
            &&& s.processing ==> u.last_thinking == s.last_thinking
            &&& u.thinking_count == s.thinking_count
            &&& u.buffering_since == s.buffering_since
        }),
{
}

/// A new turn drops what was left of the last one and keeps the rest.
pub proof fn new_turn_drops_what_was_left(
    a: ActorView,
    prompt: String,
    attachments: Vec<Attachment>,
    ctx: ReplyCtx,
    now: u64,
)
    ensures
        actor_effect(
            a,
            Input::Command(Cmd::Send { prompt, attachments, reply_ctx: ctx }),
            now,
        ).0 == (ActorView {
            stream: StreamView { buf: Seq::empty(), buffering_since: None, ..a.stream },
            reply_ctx: ctx@,
            last_activity: now,
            idle_timeout: a.idle_timeout,
        }),
{
}

/// A session at work is never ended by the clock, however long it takes; one that is
/// not is ended when it was idle for the timeout, after what was buffered is posted.
pub proof fn clock_ends_idle_sessions_only(a: ActorView, now: u64, i: int)
    ensures
        (a.stream.processing || a.stream.waiting_for_response) && 0 <= i < actor_effect(
            a,
            Input::Timer,
            now,
        ).1.len() ==> !(actor_effect(a, Input::Timer, now).1[i] is Stop),
        !a.stream.processing && !a.stream.waiting_for_response && now - a.last_activity
            >= a.idle_timeout && text::trim(a.stream.buf).len() > 0 ==> actor_effect(
            a,
            Input::Timer,
            now,
        ).1 == seq![ActionView::Reply(a.stream.buf), ActionView::Stop],
        !a.stream.processing && !a.stream.waiting_for_response && now - a.last_activity
            >= a.idle_timeout && text::trim(a.stream.buf).len() == 0 ==> actor_effect(
            a,
            Input::Timer,
            now,
        ).1 == seq![ActionView::Stop],
        !a.stream.batch && !a.stream.waiting_for_response && (a.stream.processing || now
            - a.last_activity < a.idle_timeout) && text::trim(a.stream.buf).len() > 0
            ==> actor_effect(a, Input::Timer, now).1 == seq![ActionView::Reply(a.stream.buf)],
        actor_effect(a, Input::Timer, now).0.last_activity == a.last_activity,
        actor_effect(a, Input::Timer, now).0.reply_ctx == a.reply_ctx,
{
}

/// The limits: half an hour without activity, and 32 commands that wait.
pub proof fn limits_are_the_documented_ones(batch: bool)
    ensures
        DEFAULT_IDLE_TIMEOUT == 30 * 60 * 1_000,
        INBOX_CAP == 32,
        StreamView::fresh(batch) == (StreamView {
            buf: Seq::empty(),
            buffering_since: None,
            batch,
            processing: false,
            last_thinking: None,
            thinking_count: 0,
            waiting_for_response: false,
        }),
{
}

/// Times are added without running over.
pub proof fn times_do_not_run_over(t: u64, d: u64)
    ensures
        t + d <= u64::MAX ==> later(t, d) == t + d,
        t + d > u64::MAX ==> later(t, d) == u64::MAX,
{
}

} // verus!
