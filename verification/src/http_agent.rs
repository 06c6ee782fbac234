//! An agent behind an OpenAI-compatible HTTP interface: the request bodies, the
//! streamed answer, the conversation and the retries.

use vstd::prelude::*;
use vstd::string::*;

use crate::acp;
use crate::codec;
use crate::ids;
use crate::json;
use crate::json::{Json, Members};
use crate::stream_event;
use crate::text;
use crate::types;
use crate::types::Event;

verus! {

/// How many requests are made for one answer at most.
pub const MAX_ATTEMPTS: u32 = 3;

/// The first wait before a request is repeated.
pub const INITIAL_BACKOFF_MS: u64 = 500;

/// The longest wait that the bridge chooses itself.
pub const MAX_BACKOFF_MS: u64 = 30_000;

#[derive(Debug, PartialEq, Eq)]
pub struct HttpAgentConfig {
    pub base_url: String,
    pub model: String,
    pub api_key: String,
    /// The name that the agent goes by, so that one kind of backend can stand
    /// for several.
    pub agent_name: String,
    /// Whether the answer is streamed; some gateways cannot.
    pub stream: bool,
}

impl Default for HttpAgentConfig {
    fn default() -> (r: HttpAgentConfig)
        ensures
            r.base_url@ == "https://api.openai.com/v1"@,
            r.model@ == "gpt-4o-mini"@,
            r.api_key@ == Seq::<char>::empty(),
            r.agent_name@ == "http"@,
            r.stream,
    {
        let api_key: String = String::new();
        assert(api_key@ =~= Seq::<char>::empty());
        HttpAgentConfig {
            base_url: "https://api.openai.com/v1".to_string(),
            model: "gpt-4o-mini".to_string(),
            api_key,
            agent_name: "http".to_string(),
            stream: true,
        }
    }
}

/// An agent behind an HTTP interface.
pub struct HttpAgent {
    pub cfg: HttpAgentConfig,
}

impl HttpAgent {
    pub fn new(cfg: HttpAgentConfig) -> (r: HttpAgent)
        ensures
            r.cfg == cfg,
    {
        HttpAgent { cfg }
    }

    /// The configured name.
    pub fn name(&self) -> (r: &str)
        ensures
            r@ == self.cfg.agent_name@,
    {
        self.cfg.agent_name.as_str()
    }
}

// ── Requests ────────────────────────────────────────────────────────────

/// Where completions are asked for.
pub open spec fn url_of(base: Seq<char>) -> Seq<char> {
    text::strip_back(base, seq!['/']) + "/chat/completions"@
}

/// Where completions are asked for.
pub fn completions_url(base: &str) -> (r: String)
    ensures
        r@ == url_of(base@),
{
    let slash: Vec<char> = vec!['/'];
    assert(slash@ =~= seq!['/']);
    let base: String = text::stripped_back(base, slash.as_slice());
    text::concat2(base.as_str(), "/chat/completions")
}

/// One message of the conversation.
pub open spec fn message_json(role: Seq<char>, content: Seq<char>) -> json::JsonView {
    json::JsonView::Object(
        seq![("role"@, json::JsonView::Str(role)), ("content"@, json::JsonView::Str(content))],
    )
}

fn make_message(role: &str, content: &str) -> (r: Json)
    ensures
        r@ == message_json(role@, content@),
{
    let m: Members = Members::new().with_str("role", role).with_str("content", content);
    assert(m@ =~= message_json(role@, content@)->Object_0);
    m.object()
}

/// The body of a request: the whole conversation.
pub open spec fn body_json(
    model: Seq<char>,
    messages: Seq<json::JsonView>,
    stream: bool,
) -> json::JsonView {
    json::JsonView::Object(
        seq![
            ("model"@, json::JsonView::Str(model)),
            ("messages"@, json::JsonView::Array(messages)),
            ("stream"@, json::JsonView::Bool(stream)),
        ],
    )
}

// ── The conversation ────────────────────────────────────────────────────

pub struct HttpSession {
    pub id: String,
    pub history: Vec<Json>,
}

/// The conversation after an answer: an empty answer leaves no trace.
pub open spec fn answered(history: Seq<json::JsonView>, answer: Seq<char>) -> Seq<json::JsonView> {
    if answer.len() == 0 {
        history
    } else {
        history.push(message_json("assistant"@, answer))
    }
}

/// The closing message of a turn: the whole answer, unless it is empty.
pub open spec fn closing_text(answer: Seq<char>) -> Option<types::EventView> {
    if answer.len() == 0 {
        None
    } else {
        Some(types::EventView::AssistantText { text: answer, partial: false })
    }
}

impl HttpSession {
    /// The messages so far.
    pub open spec fn messages(&self) -> Seq<json::JsonView> {
        json::json_views(self.history@)
    }

    /// A new conversation under an id of its own.
    pub fn start() -> (r: HttpSession)
        ensures
            ids::is_uuid(r.id@),
            r.messages() == Seq::<json::JsonView>::empty(),
    {
        HttpSession { id: ids::new_id(), history: Vec::new() }
    }

    /// Adds a prompt to the conversation.
    pub fn ask(&mut self, prompt: &str)
        ensures
            final(self).id == old(self).id,
            final(self).messages() == old(self).messages().push(message_json("user"@, prompt@)),
    {
        self.history.push(make_message("user", prompt));
        assert(self.history@.drop_last() =~= old(self).history@);
    }

    /// The body of the request that asks for the next answer.
    pub fn request_body(&self, model: &str, stream: bool) -> (r: Json)
        ensures
            r@ == body_json(model@, self.messages(), stream),
    {
        let messages: Json = Json::Array(json::copy_values(&self.history));
        let m: Members = Members::new().with_str("model", model).with("messages", messages).with(
            "stream",
            Json::Bool(stream),
        );
        assert(m@ =~= body_json(model@, self.messages(), stream)->Object_0);
        m.object()
    }

    /// Takes the answer into the conversation; gives the closing message.
    pub fn answer(&mut self, answer: String) -> (r: Option<Event>)
        ensures
            final(self).id == old(self).id,
            final(self).messages() == answered(old(self).messages(), answer@),
            acp::opt_event(r) == closing_text(answer@),
    {
        if answer.as_str().unicode_len() == 0 {
            return None;
        }
        self.history.push(make_message("assistant", answer.as_str()));
        assert(self.history@.drop_last() =~= old(self).history@);
        Some(Event::AssistantText { text: answer, partial: false })
    }

    /// The events that end a turn: the error, if there was one, and the end.
    pub fn turn_end(&self, error: Option<String>) -> (r: Vec<Event>)
        ensures
            stream_event::event_views(r@) == end_events(text::opt_text(error), self.id@),
    {
        let mut out: Vec<Event> = Vec::new();
        let ghost told = text::opt_text(error);
        match error {
            Some(e) => {
                out.push(Event::Error(e));
            },
            None => {},
        }
        out.push(Event::Done { session_id: self.id.clone() });
        assert(stream_event::event_views(out@) =~= end_events(told, self.id@));
        out
    }
}

/// The events that end a turn.
pub open spec fn end_events(error: Option<Seq<char>>, id: Seq<char>) -> Seq<types::EventView> {
    match error {
        Some(e) => seq![
            types::EventView::Error(e),
            types::EventView::Done { session_id: id },
        ],
        None => seq![types::EventView::Done { session_id: id }],
    }
}

/// A turn with an answer adds the prompt and then the answer, so that the
/// conversation stays a sequence of questions and answers; what was said before
/// is kept.
pub proof fn turn_adds_question_and_answer(
    history: Seq<json::JsonView>,
    prompt: Seq<char>,
    answer: Seq<char>,
)
    requires
        answer.len() > 0,
    ensures
        answered(history.push(message_json("user"@, prompt)), answer) == history + seq![
            message_json("user"@, prompt),
            message_json("assistant"@, answer),
        ],
{
    assert(answered(history.push(message_json("user"@, prompt)), answer) =~= history + seq![
        message_json("user"@, prompt),
        message_json("assistant"@, answer),
    ]);
}

// ── The answer ──────────────────────────────────────────────────────────

/// A streamed part of an answer.
#[derive(Debug, PartialEq, Eq)]
pub struct ChatChunk {
    pub choices: Vec<ChatChoice>,
}

#[derive(Debug, PartialEq, Eq)]
pub struct ChatChoice {
    pub delta: ChatDelta,
}

#[derive(Debug, PartialEq, Eq)]
pub struct ChatDelta {
    pub content: Option<String>,
}

/// The content of a choice.
pub open spec fn choice_from(j: json::JsonView) -> Option<Option<Seq<char>>> {
    let j = json::as_struct(j, seq!["delta"@], 0);
    if !(j is Object) {
        None
    } else {
        match j.get("delta"@) {
            None => Some(None),
            Some(d) => {
                let d = json::as_struct(d, seq!["content"@], 0);
                if !(d is Object) {
                    None
                } else {
                    match codec::opt_text_at(d, "content"@) {
                        Ok(c) => Some(c),
                        Err(_) => None,
                    }
                }
            },
        }
    }
}

/// The contents of the choices; an error in one is an error of all.
pub open spec fn choices_from(a: Seq<json::JsonView>) -> Option<Seq<Option<Seq<char>>>>
    decreases a.len(),
{
    if a.len() == 0 {
        Some(Seq::empty())
    } else {
        match (choices_from(a.drop_last()), choice_from(a.last())) {
            (Some(v), Some(c)) => Some(v.push(c)),
            _ => None,
        }
    }
}

/// The contents of the choices of a chunk; without choices there are none.
pub open spec fn chunk_from(j: json::JsonView) -> Option<Seq<Option<Seq<char>>>> {
    let j = json::as_struct(j, seq!["choices"@], 0);
    if !(j is Object) {
        None
    } else {
        match j.get("choices"@) {
            None => Some(Seq::empty()),
            Some(json::JsonView::Array(a)) => choices_from(a),
            Some(_) => None,
        }
    }
}

pub open spec fn contents(v: Seq<ChatChoice>) -> Seq<Option<Seq<char>>> {
    Seq::new(v.len(), |i: int| text::opt_text(v[i].delta.content))
}

fn read_choice(j: &Json) -> (r: Option<ChatChoice>)
    ensures
        match r {
            Some(c) => choice_from(j@) == Some(text::opt_text(c.delta.content)),
            None => choice_from(j@) is None,
        },
{
    let names: Vec<&str> = vec!["delta"];
    assert(json::strs(names@) =~= seq!["delta"@]);
    let j: &Json = &j.as_struct(&names, 0);
    let object: bool = match j {
        Json::Object(_) => true,
        _ => false,
    };
    if !object {
        return None;
    }
    match j.get("delta") {
        None => Some(ChatChoice { delta: ChatDelta { content: None } }),
        Some(d) => {
            let names: Vec<&str> = vec!["content"];
            assert(json::strs(names@) =~= seq!["content"@]);
            let d: &Json = &d.as_struct(&names, 0);
            let object: bool = match d {
                Json::Object(_) => true,
                _ => false,
            };
            if !object {
                return None;
            }
            match codec::opt_text_of(d, "content") {
                Ok(content) => Some(ChatChoice { delta: ChatDelta { content } }),
                Err(_) => None,
            }
        },
    }
}

proof fn lemma_choices_fail(a: Seq<json::JsonView>, i: int)
    requires
        0 <= i < a.len(),
        choice_from(a[i]) is None,
    ensures
        choices_from(a) is None,
    decreases a.len(),
{
    if i < a.len() - 1 {
        lemma_choices_fail(a.drop_last(), i);
    }
}

fn read_choices(v: &Vec<Json>) -> (r: Option<Vec<ChatChoice>>)
    ensures
        match r {
            Some(c) => choices_from(json::json_views(v@)) == Some(contents(c@)),
            None => choices_from(json::json_views(v@)) is None,
        },
{
    let ghost a = json::json_views(v@);
    let mut out: Vec<ChatChoice> = Vec::new();
    proof {
        json::lemma_json_views(v@);
        assert(a.take(0) =~= Seq::<json::JsonView>::empty());
        assert(contents(out@) =~= Seq::<Option<Seq<char>>>::empty());
    }
    let mut i: usize = 0;
    while i < v.len()
        invariant
            i <= v@.len() == a.len(),
            a == json::json_views(v@),
            forall|j: int| 0 <= j < v@.len() ==> #[trigger] a[j] == json::json_view(v@[j]),
            choices_from(a.take(i as int)) == Some(contents(out@)),
        decreases v@.len() - i,
    {
        assert(a[i as int] == v@[i as int]@);
        match read_choice(&v[i]) {
            None => {
                proof {
                    lemma_choices_fail(a, i as int);
                }
                return None;
            },
            Some(c) => {
                let ghost before = out@;
                out.push(c);
                proof {
                    assert(a.take(i + 1).drop_last() =~= a.take(i as int));
                    assert(a.take(i + 1).last() == a[i as int]);
                    assert(contents(out@) =~= contents(before).push(
                        text::opt_text(c.delta.content),
                    ));
                }
            },
        }
        i = i + 1;
    }
    assert(a.take(i as int) =~= a);
    Some(out)
}

/// A streamed part of an answer; none where the value is none.
pub fn read_chunk(j: &Json) -> (r: Option<ChatChunk>)
    ensures
        match r {
            Some(c) => chunk_from(j@) == Some(contents(c.choices@)),
            None => chunk_from(j@) is None,
        },
{
    let names: Vec<&str> = vec!["choices"];
    assert(json::strs(names@) =~= seq!["choices"@]);
    let j: &Json = &j.as_struct(&names, 0);
    let object: bool = match j {
        Json::Object(_) => true,
        _ => false,
    };
    if !object {
        return None;
    }
    match j.get("choices") {
        None => {
            let none: Vec<ChatChoice> = Vec::new();
            assert(contents(none@) =~= Seq::<Option<Seq<char>>>::empty());
            Some(ChatChunk { choices: none })
        },
        Some(c) => match c {
            Json::Array(v) => match read_choices(v) {
                Some(choices) => Some(ChatChunk { choices }),
                None => None,
            },
            _ => None,
        },
    }
}

/// A streamed part of an answer, out of its text.
pub fn parse_chunk(raw: &str) -> (r: Option<ChatChunk>)
    ensures
        match r {
            Some(c) => json::parsed(raw@) matches Some(j) && chunk_from(j) == Some(
                contents(c.choices@),
            ),
            None => json::parsed(raw@) matches Some(j) ==> chunk_from(j) is None,
        },
{
    match json::parse(raw) {
        Some(j) => read_chunk(&j),
        None => None,
    }
}

/// The text that a chunk adds: that of its first choice.
pub open spec fn added_text(chunk: Option<Seq<Option<Seq<char>>>>) -> Seq<char> {
    match chunk {
        Some(v) => if v.len() > 0 {
            match v[0] {
                Some(t) => t,
                None => Seq::empty(),
            }
        } else {
            Seq::empty()
        },
        None => Seq::empty(),
    }
}

/// What the data of one server-sent event is.
#[derive(Debug, PartialEq, Eq)]
pub enum Part {
    /// The answer is complete.
    End,
    /// Nothing to show: a chunk without text, or no chunk.
    Nothing,
    Text(String),
}

/// The text of the data of one event; none where the answer is complete.
pub open spec fn part_text(data: Seq<char>, value: Option<json::JsonView>) -> Option<Seq<char>> {
    if data == "[DONE]"@ {
        None
    } else {
        Some(
            added_text(
                match value {
                    Some(j) => chunk_from(j),
                    None => None,
                },
            ),
        )
    }
}

/// An answer while it is streamed.
pub struct Answer {
    pub text: String,
}

impl Answer {
    pub fn new() -> (r: Answer)
        ensures
            r.text@ == Seq::<char>::empty(),
    {
        let text: String = String::new();
        assert(text@ =~= Seq::<char>::empty());
        Answer { text }
    }

    /// Takes the text of a chunk.
    pub fn take_chunk(&mut self, chunk: Option<ChatChunk>) -> (r: Part)
        ensures
            ({
                let t = added_text(
                    match chunk {
                        Some(c) => Some(contents(c.choices@)),
                        None => None,
                    },
                );
                &&& final(self).text@ == old(self).text@ + t
                &&& match r {
                    Part::Text(p) => p@ == t && t.len() > 0,
                    Part::Nothing => t.len() == 0,
                    Part::End => false,
                }
            }),
    {
        let ghost before = self.text@;
        match chunk {
            None => {
                assert(self.text@ =~= before + Seq::<char>::empty());
                Part::Nothing
            },
            Some(c) => {
                if c.choices.len() == 0 {
                    assert(self.text@ =~= before + Seq::<char>::empty());
                    return Part::Nothing;
                }
                let content: Option<String> = types::copy_opt(&c.choices[0].delta.content);
                assert(contents(c.choices@)[0] == text::opt_text(c.choices@[0].delta.content));
                match content {
                    None => {
                        assert(self.text@ =~= before + Seq::<char>::empty());
                        Part::Nothing
                    },
                    Some(t) => {
                        self.text.append(t.as_str());
                        if t.as_str().unicode_len() == 0 {
                            Part::Nothing
                        } else {
                            Part::Text(t)
                        }
                    },
                }
            },
        }
    }

    /// Takes the data of one server-sent event. What is no chunk is skipped.
    pub fn take(&mut self, data: &str) -> (r: Part)
        ensures
            match part_text(data@, json::parsed(data@)) {
                None => r is End && final(self).text@ == old(self).text@,
                Some(t) => final(self).text@ == old(self).text@ + t && match r {
                    Part::Text(p) => p@ == t && t.len() > 0,
                    Part::Nothing => t.len() == 0,
                    Part::End => false,
                },
            },
    {
        if text::same(data, "[DONE]") {
            return Part::End;
        }
        self.take_chunk(parse_chunk(data))
    }
}

/// The answer that a list of events streams: their texts up to the end.
pub open spec fn streamed(parts: Seq<Option<Seq<char>>>) -> Seq<char>
    decreases parts.len(),
{
    if parts.len() == 0 || parts[0] is None {
        Seq::empty()
    } else {
        parts[0]->Some_0 + streamed(parts.drop_first())
    }
}

/// The partial messages of a list of events, up to the end.
pub open spec fn shown_parts(parts: Seq<Option<Seq<char>>>) -> Seq<types::EventView>
    decreases parts.len(),
{
    if parts.len() == 0 || parts[0] is None {
        Seq::empty()
    } else if parts[0]->Some_0.len() == 0 {
        shown_parts(parts.drop_first())
    } else {
        seq![types::EventView::AssistantText { text: parts[0]->Some_0, partial: true }]
            + shown_parts(parts.drop_first())
    }
}

/// The texts of partial messages, put together.
pub open spec fn partial_text(v: Seq<types::EventView>) -> Seq<char>
    decreases v.len(),
{
    if v.len() == 0 {
        Seq::empty()
    } else {
        (match v[0] {
            types::EventView::AssistantText { text, partial: true } => text,
            _ => Seq::empty(),
        }) + partial_text(v.drop_first())
    }
}

/// The closing message of a streamed answer is what its partial messages add
/// up to.
pub proof fn closing_message_is_what_was_streamed(parts: Seq<Option<Seq<char>>>)
    ensures
        partial_text(shown_parts(parts)) == streamed(parts),
    decreases parts.len(),
{
    if parts.len() == 0 || parts[0] is None {
    } else {
        closing_message_is_what_was_streamed(parts.drop_first());
        let t = parts[0]->Some_0;
        if t.len() == 0 {
            assert(t + streamed(parts.drop_first()) =~= streamed(parts.drop_first()));
        } else {
            let v = shown_parts(parts);
            assert(v.drop_first() =~= shown_parts(parts.drop_first()));
        }
    }
}

/// The member or the first element under the name `0`.
pub open spec fn first_of(j: json::JsonView) -> Option<json::JsonView> {
    match j {
        json::JsonView::Array(a) => if a.len() > 0 {
            Some(a[0])
        } else {
            None
        },
        json::JsonView::Object(_) => j.get("0"@),
        _ => None,
    }
}

/// The text of an answer that is not streamed: the message of the first choice,
/// empty where there is none.
pub open spec fn whole_answer(j: json::JsonView) -> Seq<char> {
    match j.get("choices"@) {
        Some(choices) => match first_of(choices) {
            Some(choice) => match choice.get("message"@) {
                Some(m) => acp::text_or_empty(m, "content"@),
                None => Seq::empty(),
            },
            None => Seq::empty(),
        },
        None => Seq::empty(),
    }
}

fn nothing() -> (r: String)
    ensures
        r@ == Seq::<char>::empty(),
{
    let empty: String = String::new();
    assert(empty@ =~= Seq::<char>::empty());
    empty
}

/// The text of an answer that is not streamed.
pub fn read_answer(j: &Json) -> (r: String)
    ensures
        r@ == whole_answer(j@),
{
    let choices: &Json = match j.get("choices") {
        Some(c) => c,
        None => {
            return nothing();
        },
    };
    let choice: &Json = match choices {
        Json::Array(v) => {
            proof {
                json::lemma_json_views(v@);
            }
            if v.len() == 0 {
                return nothing();
            }
            assert(json::json_views(v@)[0] == json::json_view(v@[0]));
            &v[0]
        },
        _ => match choices.get("0") {
            Some(c) => c,
            None => {
                return nothing();
            },
        },
    };
    match choice.get("message") {
        Some(m) => match m.get_text("content") {
            Some(t) => t,
            None => nothing(),
        },
        None => nothing(),
    }
}

// ── Retries ─────────────────────────────────────────────────────────────

/// A wait: whole seconds, as a server asks for them, or milliseconds.
#[derive(Clone, Copy, Debug, PartialEq, Eq, Structural)]
pub enum Wait {
    Seconds(u64),
    Millis(u64),
}

/// What to do with a response.
#[derive(Clone, Copy, Debug, PartialEq, Eq, Structural)]
pub enum Verdict {
    /// It is the answer.
    Accept,
    /// Wait, and try again while tries are left.
    Again(Wait),
    /// The server refuses: no further try.
    Refuse,
}

/// A request that may be repeated.
pub struct Retry {
    pub attempt: u32,
    pub backoff_ms: u64,
    pub last_error: Option<String>,
}

/// The waits double up to a limit.
pub open spec fn doubled(ms: u64) -> u64 {
    if 2 * ms < MAX_BACKOFF_MS {
        (2 * ms) as u64
    } else {
        MAX_BACKOFF_MS
    }
}

/// A server that is overloaded or broken may answer later.
pub open spec fn worth_retrying(status: u16) -> bool {
    status == 429 || 500 <= status <= 599
}

/// What to do with a response: success is accepted, a passing failure is
/// repeated after the time that the server asks for or else the backoff, and
/// anything else is refused.
pub open spec fn verdict_on(
    status: u16,
    retry_after: Option<Seq<char>>,
    backoff_ms: u64,
) -> Verdict {
    if 200 <= status <= 299 {
        Verdict::Accept
    } else if worth_retrying(status) {
        Verdict::Again(
            match retry_after {
                Some(s) => match text::parse_upto(s, u64::MAX as int) {
                    Some(n) => Wait::Seconds(n as u64),
                    None => Wait::Millis(backoff_ms),
                },
                None => Wait::Millis(backoff_ms),
            },
        )
    } else {
        Verdict::Refuse
    }
}

impl Retry {
    pub open spec fn wf(&self) -> bool {
        &&& self.attempt <= MAX_ATTEMPTS
        &&& self.backoff_ms <= MAX_BACKOFF_MS
    }

    pub fn new() -> (r: Retry)
        ensures
            r.wf(),
            r.attempt == 0,
            r.backoff_ms == INITIAL_BACKOFF_MS,
            r.last_error is None,
    {
        Retry { attempt: 0, backoff_ms: INITIAL_BACKOFF_MS, last_error: None }
    }

    /// Whether another request may be made.
    pub fn may_try(&self) -> (r: bool)
        ensures
            r == (self.attempt < MAX_ATTEMPTS),
    {
        self.attempt < MAX_ATTEMPTS
    }

    fn next(&mut self, error: String)
        requires
            old(self).wf(),
            old(self).attempt < MAX_ATTEMPTS,
        ensures
            final(self).wf(),
            final(self).attempt == old(self).attempt + 1,
            final(self).backoff_ms == doubled(old(self).backoff_ms),
            final(self).last_error == Some(error),
    {
        self.attempt = self.attempt + 1;
        let twice: u64 = 2 * self.backoff_ms;
        self.backoff_ms = if twice < MAX_BACKOFF_MS {
            twice
        } else {
            MAX_BACKOFF_MS
        };
        self.last_error = Some(error);
    }

    /// Takes the status of a response; `shown` is how it is shown.
    pub fn on_response(&mut self, status: u16, shown: &str, retry_after: &Option<String>) -> (r:
        Verdict)
        requires
            old(self).wf(),
            old(self).attempt < MAX_ATTEMPTS,
        ensures
            r == verdict_on(status, text::opt_text(*retry_after), old(self).backoff_ms),
            final(self).wf(),
            match r {
                Verdict::Again(_) => final(self).attempt == old(self).attempt + 1
                    && final(self).backoff_ms == doubled(old(self).backoff_ms) && text::opt_text(
                    final(self).last_error,
                ) == Some("HTTP "@ + shown@),
                _ => *final(self) == *old(self),
            },
    {
        if 200 <= status && status <= 299 {
            return Verdict::Accept;
        }
        if status != 429 && !(500 <= status && status <= 599) {
            return Verdict::Refuse;
        }
        let own: Wait = Wait::Millis(self.backoff_ms);
        let wait: Wait = match retry_after {
            Some(s) => match text::parse_number(s.as_str(), u64::MAX) {
                Some(n) => Wait::Seconds(n),
                None => own,
            },
            None => own,
        };
        self.next(text::concat2("HTTP ", shown));
        Verdict::Again(wait)
    }

    /// Takes the failure of a request that got no response; gives the wait.
    pub fn on_failure(&mut self, error: String) -> (r: Wait)
        requires
            old(self).wf(),
            old(self).attempt < MAX_ATTEMPTS,
        ensures
            r == Wait::Millis(old(self).backoff_ms),
            final(self).wf(),
            final(self).attempt == old(self).attempt + 1,
            final(self).backoff_ms == doubled(old(self).backoff_ms),
            final(self).last_error == Some(error),
    {
        let wait: Wait = Wait::Millis(self.backoff_ms);
        self.next(error);
        wait
    }

    /// The error once no try is left: the last one.
    pub fn given_up(self) -> (r: String)
        ensures
            r@ == match text::opt_text(self.last_error) {
                Some(e) => e,
                None => "retry budget exhausted"@,
            },
    {
        match self.last_error {
            Some(e) => e,
            None => "retry budget exhausted".to_string(),
        }
    }
}

/// The error of a refused request.
pub fn refused(shown: &str, body: &str) -> (r: String)
    ensures
        r@ == "HTTP "@ + shown@ + ": "@ + body@,
{
    text::concat2(text::concat3("HTTP ", shown, ": ").as_str(), body)
}

/// The wait before the repetition number `n`.
pub open spec fn backoff_at(n: nat) -> u64
    decreases n,
{
    if n == 0 {
        INITIAL_BACKOFF_MS
    } else {
        doubled(backoff_at((n - 1) as nat))
    }
}

/// The waits grow with every try and stay within their limit.
pub proof fn waits_grow_up_to_the_limit(n: nat)
    ensures
        backoff_at(n) <= backoff_at(n + 1) <= MAX_BACKOFF_MS,
        backoff_at(n) >= INITIAL_BACKOFF_MS,
    decreases n,
{
    if n > 0 {
        waits_grow_up_to_the_limit((n - 1) as nat);
    }
}

// ── Laws ────────────────────────────────────────────────────────────────

/// The address has one slash in front of the endpoint, whether or not the base ends
/// with one.
pub proof fn base_may_end_with_a_slash(base: Seq<char>)
    requires
        base.len() > 0,
        base.last() != '/',
    ensures
        url_of(base) == base + "/chat/completions"@,
        url_of(base + "/"@) == base + "/chat/completions"@,
{
    reveal_strlit("/");
    let set = seq!['/'];
    assert(set[0] == '/');
    assert(!set.contains(base.last()));
    assert((base + "/"@).last() == '/');
    assert(set.contains('/'));
    assert((base + "/"@).drop_last() =~= base);
}

/// A request holds the model, the whole conversation in order, and whether the
/// answer is to be streamed. Each message says who it is from.
pub proof fn requests_hold_the_conversation(
    model: Seq<char>,
    messages: Seq<json::JsonView>,
    stream: bool,
    role: Seq<char>,
    content: Seq<char>,
)
    ensures
        body_json(model, messages, stream) == json::JsonView::Object(
            seq![
                ("model"@, json::JsonView::Str(model)),
                ("messages"@, json::JsonView::Array(messages)),
                ("stream"@, json::JsonView::Bool(stream)),
            ],
        ),
        message_json(role, content) == json::JsonView::Object(
            seq![("role"@, json::JsonView::Str(role)), ("content"@, json::JsonView::Str(content))],
        ),
{
}

/// The whole answer is handed out once, as a complete text, and remembered as the
/// assistant's; an empty one is neither.
pub proof fn answers_are_complete_and_remembered(
    history: Seq<json::JsonView>,
    answer: Seq<char>,
)
    requires
        answer.len() > 0,
    ensures
        closing_text(answer) == Some(
            types::EventView::AssistantText { text: answer, partial: false },
        ),
        closing_text(Seq::empty()) is None,
        answered(history, answer) == history.push(
            json::JsonView::Object(
                seq![
                    ("role"@, json::JsonView::Str("assistant"@)),
                    ("content"@, json::JsonView::Str(answer)),
                ],
            ),
        ),
        answered(history, Seq::empty()) == history,
{
}

/// A turn ends with `Done` under the id of its session; what went wrong is said
/// before.
pub proof fn turns_end_with_done(id: Seq<char>, e: Seq<char>)
    ensures
        end_events(None, id) == seq![types::EventView::Done { session_id: id }],
        end_events(Some(e), id) == seq![
            types::EventView::Error(e),
            types::EventView::Done { session_id: id },
        ],
{
}

/// A line of the stream adds the text of its first choice; the closing mark ends the
/// stream, and anything that cannot be read adds nothing.
pub proof fn stream_lines_add_their_text(
    data: Seq<char>,
    j: json::JsonView,
    a: Seq<json::JsonView>,
    d: json::JsonView,
    t: Seq<char>,
)
    requires
        data != "[DONE]"@,
        j is Object,
        j.get("choices"@) == Some(json::JsonView::Array(a)),
        a.len() == 1,
        a[0] is Object,
        a[0].get("delta"@) == Some(d),
        d is Object,
    ensures
        d.get("content"@) == Some(json::JsonView::Str(t)) ==> part_text(data, Some(j)) == Some(t),
        d.get("content"@) is None ==> part_text(data, Some(j)) == Some(Seq::<char>::empty()),
        part_text(data, None) == Some(Seq::<char>::empty()),
        part_text("[DONE]"@, Some(j)) is None,
{
    assert(a.drop_last() =~= Seq::<json::JsonView>::empty());
    assert(choices_from(a.drop_last()) == Some(Seq::<Option<Seq<char>>>::empty()));
    assert(a.last() == a[0]);
}

/// The text that was streamed is that of the lines before the closing mark, one
/// behind the other.
pub proof fn streamed_text_is_its_parts(t: Seq<char>, parts: Seq<Option<Seq<char>>>)
    ensures
        streamed(seq![Some(t)] + parts) == t + streamed(parts),
        streamed(seq![None::<Seq<char>>] + parts).len() == 0,
        streamed(Seq::empty()).len() == 0,
{
    assert((seq![Some(t)] + parts).drop_first() =~= parts);
    assert((seq![Some(t)] + parts)[0] == Some(t));
    assert((seq![None::<Seq<char>>] + parts)[0] is None);
}

/// An answer that is not streamed is the message of its first choice.
pub proof fn whole_answer_is_the_first_choice(
    j: json::JsonView,
    a: Seq<json::JsonView>,
    m: json::JsonView,
    t: Seq<char>,
)
    requires
        j.get("choices"@) == Some(json::JsonView::Array(a)),
        a.len() > 0,
        a[0].get("message"@) == Some(m),
        m.get("content"@) == Some(json::JsonView::Str(t)),
    ensures
        whole_answer(j) == t,
{
}

/// A success is taken. Too many requests or an error of the server is worth another
/// try, after the seconds that the server asks for or else after the current wait.
/// Anything else is refused at once.
pub proof fn responses_are_judged_by_status(status: u16, n: nat, wait: u64)
    requires
        n <= u64::MAX,
    ensures
        200 <= status < 300 ==> verdict_on(status, None, wait) == Verdict::Accept,
        status == 429 || 500 <= status < 600 ==> verdict_on(status, None, wait) == Verdict::Again(
            Wait::Millis(wait),
        ),
        status == 429 || 500 <= status < 600 ==> verdict_on(
            status,
            Some(text::decimal(n)),
            wait,
        ) == Verdict::Again(Wait::Seconds(n as u64)),
        !(200 <= status < 300) && status != 429 && !(500 <= status < 600) ==> verdict_on(
            status,
            Some(text::decimal(n)),
            wait,
        ) == Verdict::Refuse,
{
    text::decimal_reads_back(n);
}

/// The waits start at half a second and double, up to half a minute; there are three
/// tries.
pub proof fn waits_double_up_to_half_a_minute(ms: u64)
    ensures
        INITIAL_BACKOFF_MS == 500,
        MAX_ATTEMPTS == 3,
        ms < 15_000 ==> doubled(ms) == 2 * ms,
        ms >= 15_000 ==> doubled(ms) == 30_000,
{
}

/// Of several choices the first counts, and they are read in order.
pub proof fn first_choice_counts(
    data: Seq<char>,
    j: json::JsonView,
    a: Seq<json::JsonView>,
    v: Seq<Option<Seq<char>>>,
    next: json::JsonView,
    c: Option<Seq<char>>,
)
    requires
        data != "[DONE]"@,
        j is Object,
        j.get("choices"@) == Some(json::JsonView::Array(a)),
        choices_from(a) == Some(v),
        v.len() > 0,
        choice_from(next) == Some(c),
    ensures
        v[0] is Some ==> part_text(data, Some(j)) == v[0],
        v[0] is None ==> part_text(data, Some(j)) == Some(Seq::<char>::empty()),
        choices_from(a.push(next)) == Some(v.push(c)),
{
    assert(a.push(next).drop_last() =~= a);
}

} // verus!
