//! Slack: Socket Mode envelopes, inbound messages, replies and uploads. In
//! channels the bot answers only where it is mentioned; direct messages are
//! always answered.

use vstd::prelude::*;
use vstd::string::*;

use crate::codec;
use crate::json;
use crate::json::{Json, Members};
use crate::stream_event;
use crate::text;
use crate::types;
use crate::types::{Attachment, AttachmentKind, Message, ReplyCtx, SessionKey};

verus! {

#[derive(Debug, PartialEq, Eq)]
pub struct SlackConfig {
    /// `xapp-...`: the app-level token of Socket Mode.
    pub app_token: String,
    /// `xoxb-...`: the bot token, for posting and uploads.
    pub bot_token: String,
}

pub struct SlackPlatform {
    pub cfg: SlackConfig,
    /// The bot's own id, once it is known.
    pub bot_user_id: Option<String>,
}

impl SlackPlatform {
    pub fn new(cfg: SlackConfig) -> (r: SlackPlatform)
        ensures
            r.cfg == cfg,
            r.bot_user_id is None,
    {
        SlackPlatform { cfg, bot_user_id: None }
    }

    pub fn name(&self) -> (r: &'static str)
        ensures
            r@ == "slack"@,
    {
        "slack"
    }
}

// ── Envelopes ───────────────────────────────────────────────────────────

/// What Socket Mode wraps every event in.
#[derive(Debug, PartialEq, Eq)]
pub struct Envelope {
    pub envelope_id: Option<String>,
    pub kind: String,
    pub payload: Json,
}

#[derive(Debug, PartialEq, Eq)]
pub struct EventsApiPayload {
    pub team_id: Option<String>,
    pub event: SlackEvent,
}

#[derive(Debug, PartialEq, Eq)]
pub enum SlackEvent {
    Message(MessageEvent),
    Other,
}

#[derive(Debug, PartialEq, Eq)]
pub struct MessageEvent {
    pub channel: Option<String>,
    pub user: Option<String>,
    pub text: String,
    pub ts: Option<String>,
    pub thread_ts: Option<String>,
    /// Set where a bot wrote the message.
    pub bot_id: Option<String>,
    pub subtype: Option<String>,
    pub files: Vec<SlackFile>,
}

#[derive(Debug, PartialEq, Eq)]
pub struct SlackFile {
    pub id: String,
    pub name: Option<String>,
    pub mimetype: Option<String>,
    pub url_private_download: Option<String>,
    pub size: Option<u64>,
}

pub struct FileView {
    pub id: Seq<char>,
    pub name: Option<Seq<char>>,
    pub mimetype: Option<Seq<char>>,
    pub url: Option<Seq<char>>,
    pub size: Option<u64>,
}

pub struct EventView {
    pub channel: Option<Seq<char>>,
    pub user: Option<Seq<char>>,
    pub text: Seq<char>,
    pub ts: Option<Seq<char>>,
    pub thread_ts: Option<Seq<char>>,
    pub bot_id: Option<Seq<char>>,
    pub subtype: Option<Seq<char>>,
    pub files: Seq<FileView>,
}

pub struct EnvelopeView {
    pub envelope_id: Option<Seq<char>>,
    pub kind: Seq<char>,
    pub payload: json::JsonView,
}

impl View for SlackFile {
    type V = FileView;

    open spec fn view(&self) -> FileView {
        FileView {
            id: self.id@,
            name: text::opt_text(self.name),
            mimetype: text::opt_text(self.mimetype),
            url: text::opt_text(self.url_private_download),
            size: self.size,
        }
    }
}

pub open spec fn file_views(v: Seq<SlackFile>) -> Seq<FileView> {
    Seq::new(v.len(), |i: int| v[i]@)
}

impl View for MessageEvent {
    type V = EventView;

    open spec fn view(&self) -> EventView {
        EventView {
            channel: text::opt_text(self.channel),
            user: text::opt_text(self.user),
            text: self.text@,
            ts: text::opt_text(self.ts),
            thread_ts: text::opt_text(self.thread_ts),
            bot_id: text::opt_text(self.bot_id),
            subtype: text::opt_text(self.subtype),
            files: file_views(self.files@),
        }
    }
}

impl View for Envelope {
    type V = EnvelopeView;

    open spec fn view(&self) -> EnvelopeView {
        EnvelopeView {
            envelope_id: text::opt_text(self.envelope_id),
            kind: self.kind@,
            payload: self.payload@,
        }
    }
}

/// The fields of an envelope.
pub open spec fn envelope_fields() -> Seq<Seq<char>> {
    seq!["envelope_id"@, "type"@, "payload"@]
}

/// The fields of a shared file.
pub open spec fn file_fields() -> Seq<Seq<char>> {
    seq!["id"@, "name"@, "mimetype"@, "url_private_download"@, "size"@]
}

/// The fields of a message.
pub open spec fn event_fields() -> Seq<Seq<char>> {
    seq!["channel"@, "user"@, "text"@, "ts"@, "thread_ts"@, "bot_id"@, "subtype"@, "files"@]
}

/// The fields of a payload.
pub open spec fn payload_fields() -> Seq<Seq<char>> {
    seq!["team_id"@, "event"@]
}

/// An envelope has a type.
pub open spec fn envelope_from(j: json::JsonView) -> Option<EnvelopeView> {
    let j = json::as_struct(j, envelope_fields(), 2);
    match (j.get_text("type"@), codec::opt_text_at(j, "envelope_id"@)) {
        (Some(kind), Ok(envelope_id)) => Some(
            EnvelopeView { envelope_id, kind, payload: stream_event::value_at(j, "payload"@) },
        ),
        _ => None,
    }
}

/// The envelope that a value stands for.
pub fn read_envelope(j: &Json) -> (r: Option<Envelope>)
    ensures
        match r {
            Some(e) => envelope_from(j@) == Some(e@),
            None => envelope_from(j@) is None,
        },
{
    let names: Vec<&str> = vec!["envelope_id", "type", "payload"];
    assert(json::strs(names@) =~= envelope_fields());
    let j: &Json = &j.as_struct(&names, 2);
    match (j.get_text("type"), codec::opt_text_of(j, "envelope_id")) {
        (Some(kind), Ok(envelope_id)) => Some(
            Envelope { envelope_id, kind, payload: stream_event::value_of_member(j, "payload") },
        ),
        _ => None,
    }
}

/// A shared file has an id.
pub open spec fn file_from(j: json::JsonView) -> Option<FileView> {
    let j = json::as_struct(j, file_fields(), 5);
    match (
        j.get_text("id"@),
        codec::opt_text_at(j, "name"@),
        codec::opt_text_at(j, "mimetype"@),
        codec::opt_text_at(j, "url_private_download"@),
        codec::opt_count_at(j, "size"@),
    ) {
        (Some(id), Ok(name), Ok(mimetype), Ok(url), Ok(size)) => Some(
            FileView { id, name, mimetype, url, size },
        ),
        _ => None,
    }
}

/// A list of shared files; an error in one is an error of all.
pub open spec fn files_from(a: Seq<json::JsonView>) -> Option<Seq<FileView>>
    decreases a.len(),
{
    if a.len() == 0 {
        Some(Seq::empty())
    } else {
        match (files_from(a.drop_last()), file_from(a.last())) {
            (Some(v), Some(f)) => Some(v.push(f)),
            _ => None,
        }
    }
}

/// The text of a message, which may be absent.
pub open spec fn said_from(j: json::JsonView) -> Option<Seq<char>> {
    match j.get("text"@) {
        None => Some(Seq::empty()),
        Some(v) => v.text(),
    }
}

/// The files of a message, which may be absent.
pub open spec fn shared_from(j: json::JsonView) -> Option<Seq<FileView>> {
    match j.get("files"@) {
        None => Some(Seq::empty()),
        Some(json::JsonView::Array(a)) => files_from(a),
        Some(_) => None,
    }
}

/// A message event.
pub open spec fn event_from(j: json::JsonView) -> Option<EventView> {
    let j = json::as_struct(j, event_fields(), 7);
    match (
        codec::opt_text_at(j, "channel"@),
        codec::opt_text_at(j, "user"@),
        said_from(j),
        codec::opt_text_at(j, "ts"@),
        codec::opt_text_at(j, "thread_ts"@),
        codec::opt_text_at(j, "bot_id"@),
        codec::opt_text_at(j, "subtype"@),
        shared_from(j),
    ) {
        (
            Ok(channel),
            Ok(user),
            Some(text),
            Ok(ts),
            Ok(thread_ts),
            Ok(bot_id),
            Ok(subtype),
            Some(files),
        ) => if j is Object {
            Some(EventView { channel, user, text, ts, thread_ts, bot_id, subtype, files })
        } else {
            None
        },
        _ => None,
    }
}

/// The event of a payload: a message, or none that matters here.
pub open spec fn payload_from(j: json::JsonView) -> Option<(Option<Seq<char>>, Option<EventView>)> {
    let j = json::as_struct(j, payload_fields(), 2);
    match (codec::opt_text_at(j, "team_id"@), j.get("event"@)) {
        (Ok(team), Some(e)) => match json::plain_tag(e, "type"@) {
            None => None,
            Some(kind) => if kind == "message"@ {
                match event_from(json::as_variant(e, event_fields(), 7)) {
                    Some(m) => Some((team, Some(m))),
                    None => None,
                }
            } else if json::lone_tag(e) {
                Some((team, None))
            } else {
                None
            },
        },
        _ => None,
    }
}

pub open spec fn payload_view(p: EventsApiPayload) -> (Option<Seq<char>>, Option<EventView>) {
    (
        text::opt_text(p.team_id),
        match p.event {
            SlackEvent::Message(m) => Some(m@),
            SlackEvent::Other => None,
        },
    )
}

fn read_file(j: &Json) -> (r: Option<SlackFile>)
    ensures
        match r {
            Some(f) => file_from(j@) == Some(f@),
            None => file_from(j@) is None,
        },
{
    let names: Vec<&str> = vec!["id", "name", "mimetype", "url_private_download", "size"];
    assert(json::strs(names@) =~= file_fields());
    let j: &Json = &j.as_struct(&names, 5);
    match (
        j.get_text("id"),
        codec::opt_text_of(j, "name"),
        codec::opt_text_of(j, "mimetype"),
        codec::opt_text_of(j, "url_private_download"),
        codec::opt_count_of(j, "size"),
    ) {
        (Some(id), Ok(name), Ok(mimetype), Ok(url_private_download), Ok(size)) => Some(
            SlackFile { id, name, mimetype, url_private_download, size },
        ),
        _ => None,
    }
}

proof fn lemma_files_fail(a: Seq<json::JsonView>, i: int)
    requires
        0 <= i < a.len(),
        file_from(a[i]) is None,
    ensures
        files_from(a) is None,
    decreases a.len(),
{
    if i < a.len() - 1 {
        lemma_files_fail(a.drop_last(), i);
    }
}

fn read_files(v: &Vec<Json>) -> (r: Option<Vec<SlackFile>>)
    ensures
        match r {
            Some(f) => files_from(json::json_views(v@)) == Some(file_views(f@)),
            None => files_from(json::json_views(v@)) is None,
        },
{
    let ghost a = json::json_views(v@);
    let mut out: Vec<SlackFile> = Vec::new();
    proof {
        json::lemma_json_views(v@);
        assert(a.take(0) =~= Seq::<json::JsonView>::empty());
        assert(file_views(out@) =~= Seq::<FileView>::empty());
    }
    let mut i: usize = 0;
    while i < v.len()
        invariant
            i <= v@.len() == a.len(),
            a == json::json_views(v@),
            forall|j: int| 0 <= j < v@.len() ==> #[trigger] a[j] == json::json_view(v@[j]),
            files_from(a.take(i as int)) == Some(file_views(out@)),
        decreases v@.len() - i,
    {
        assert(a[i as int] == v@[i as int]@);
        match read_file(&v[i]) {
            None => {
                proof {
                    lemma_files_fail(a, i as int);
                }
                return None;
            },
            Some(f) => {
                let ghost before = out@;
                let ghost seen = f@;
                out.push(f);
                proof {
                    assert(a.take(i + 1).drop_last() =~= a.take(i as int));
                    assert(a.take(i + 1).last() == a[i as int]);
                    assert(file_views(out@) =~= file_views(before).push(seen));
                }
            },
        }
        i = i + 1;
    }
    assert(a.take(i as int) =~= a);
    Some(out)
}

fn read_shared(j: &Json) -> (r: Option<Vec<SlackFile>>)
    ensures
        match r {
            Some(f) => shared_from(j@) == Some(file_views(f@)),
            None => shared_from(j@) is None,
        },
{
    match j.get("files") {
        None => {
            let none: Vec<SlackFile> = Vec::new();
            assert(file_views(none@) =~= Seq::<FileView>::empty());
            Some(none)
        },
        Some(v) => match v {
            Json::Array(a) => read_files(a),
            _ => None,
        },
    }
}

fn read_said(j: &Json) -> (r: Option<String>)
    ensures
        text::opt_text(r) == said_from(j@),
{
    match j.get("text") {
        None => {
            let empty: String = String::new();
            assert(empty@ =~= Seq::<char>::empty());
            Some(empty)
        },
        Some(v) => v.as_text(),
    }
}

/// The message event that a value stands for.
pub fn read_message_event(j: &Json) -> (r: Option<MessageEvent>)
    ensures
        match r {
            Some(e) => event_from(j@) == Some(e@),
            None => event_from(j@) is None,
        },
{
    let names: Vec<&str> = vec!["channel", "user", "text", "ts", "thread_ts", "bot_id", "subtype", "files"];
    assert(json::strs(names@) =~= event_fields());
    let j: &Json = &j.as_struct(&names, 7);
    let object: bool = match j {
        Json::Object(_) => true,
        _ => false,
    };
    if !object {
        return None;
    }
    let said: String = match read_said(j) {
        Some(t) => t,
        None => {
            return None;
        },
    };
    let files: Vec<SlackFile> = match read_shared(j) {
        Some(f) => f,
        None => {
            return None;
        },
    };
    match (
        codec::opt_text_of(j, "channel"),
        codec::opt_text_of(j, "user"),
        codec::opt_text_of(j, "ts"),
        codec::opt_text_of(j, "thread_ts"),
        codec::opt_text_of(j, "bot_id"),
        codec::opt_text_of(j, "subtype"),
    ) {
        (Ok(channel), Ok(user), Ok(ts), Ok(thread_ts), Ok(bot_id), Ok(subtype)) => Some(
            MessageEvent { channel, user, text: said, ts, thread_ts, bot_id, subtype, files },
        ),
        _ => None,
    }
}

/// The payload that a value stands for.
pub fn read_payload(j: &Json) -> (r: Option<EventsApiPayload>)
    ensures
        match r {
            Some(p) => payload_from(j@) == Some(payload_view(p)),
            None => payload_from(j@) is None,
        },
{
    let names: Vec<&str> = vec!["team_id", "event"];
    assert(json::strs(names@) =~= payload_fields());
    let j: &Json = &j.as_struct(&names, 2);
    let team_id: Option<String> = match codec::opt_text_of(j, "team_id") {
        Ok(t) => t,
        Err(_) => {
            return None;
        },
    };
    let e: &Json = match j.get("event") {
        Some(e) => e,
        None => {
            return None;
        },
    };
    match e.plain_tag("type") {
        None => None,
        Some(kind) => if text::same(kind.as_str(), "message") {
            let names: Vec<&str> = vec!["channel", "user", "text", "ts", "thread_ts", "bot_id", "subtype", "files"];
            assert(json::strs(names@) =~= event_fields());
            let e: &Json = &e.as_variant(&names, 7);
            match read_message_event(e) {
                Some(m) => Some(EventsApiPayload { team_id, event: SlackEvent::Message(m) }),
                None => None,
            }
        } else if e.lone_tag() {
            Some(EventsApiPayload { team_id, event: SlackEvent::Other })
        } else {
            None
        },
    }
}

/// What a frame of the socket asks for: to acknowledge the envelope, and to
/// take up a message.
#[derive(Debug, PartialEq, Eq)]
pub struct Received {
    pub ack: Option<Json>,
    pub message: Option<MessageEvent>,
}

/// The acknowledgement of an envelope.
pub open spec fn ack_json(id: Seq<char>) -> json::JsonView {
    json::JsonView::Object(seq![("envelope_id"@, json::JsonView::Str(id))])
}

/// The acknowledgement that an envelope is owed, and the message that it holds:
/// only those of the type `events_api` hold one.
pub open spec fn unwrapped(e: EnvelopeView) -> (Option<json::JsonView>, Option<EventView>) {
    (
        match e.envelope_id {
            Some(id) => Some(ack_json(id)),
            None => None,
        },
        if e.kind == "events_api"@ {
            match payload_from(e.payload) {
                Some((team, m)) => m,
                None => None,
            }
        } else {
            None
        },
    )
}

pub open spec fn opt_event(e: Option<MessageEvent>) -> Option<EventView> {
    match e {
        Some(e) => Some(e@),
        None => None,
    }
}

pub open spec fn opt_json_view(j: Option<Json>) -> Option<json::JsonView> {
    match j {
        Some(j) => Some(j@),
        None => None,
    }
}

fn make_ack(id: &str) -> (r: Json)
    ensures
        r@ == ack_json(id@),
{
    let m: Members = Members::new().with_str("envelope_id", id);
    assert(m@ =~= ack_json(id@)->Object_0);
    m.object()
}

/// What an envelope asks for. It is acknowledged whatever it holds.
pub fn unwrap_envelope(e: Envelope) -> (r: Received)
    ensures
        (opt_json_view(r.ack), opt_event(r.message)) == unwrapped(e@),
{
    let ack: Option<Json> = match &e.envelope_id {
        Some(id) => Some(make_ack(id.as_str())),
        None => None,
    };
    if !text::same(e.kind.as_str(), "events_api") {
        return Received { ack, message: None };
    }
    let message: Option<MessageEvent> = match read_payload(&e.payload) {
        Some(p) => match p.event {
            SlackEvent::Message(m) => Some(m),
            SlackEvent::Other => None,
        },
        None => None,
    };
    Received { ack, message }
}

/// What the text of a frame asks for; none where it is no envelope.
pub fn receive(raw: &str) -> (r: Option<Received>)
    ensures
        match r {
            Some(got) => json::parsed(raw@) matches Some(j) && envelope_from(j) matches Some(e) && (
            opt_json_view(got.ack),
            opt_event(got.message),
            ) == unwrapped(e),
            None => json::parsed(raw@) matches Some(j) ==> envelope_from(j) is None,
        },
{
    match json::parse(raw) {
        Some(j) => match read_envelope(&j) {
            Some(e) => Some(unwrap_envelope(e)),
            None => None,
        },
        None => None,
    }
}

/// Every envelope with an id is acknowledged, also one that is not understood.
pub proof fn envelopes_are_acknowledged(e: EnvelopeView)
    requires
        e.envelope_id is Some,
    ensures
        unwrapped(e).0 == Some(ack_json(e.envelope_id->Some_0)),
{
}

// ── Inbound messages ────────────────────────────────────────────────────

/// Messages to ignore: those of bots, edits, deletions, joins.
pub open spec fn skippable(e: EventView) -> bool {
    e.bot_id is Some || !(e.subtype is None || e.subtype == Some("file_share"@))
}

impl MessageEvent {
    /// Whether to ignore the message: that of a bot, an edit, a deletion, a
    /// join.
    pub fn is_skippable(&self) -> (r: bool)
        ensures
            r == skippable(self@),
    {
        if self.bot_id.is_some() {
            return true;
        }
        match &self.subtype {
            None => false,
            Some(s) => !text::same(s.as_str(), "file_share"),
        }
    }
}

/// Direct messages are in channels whose id starts with `D`.
pub open spec fn direct(channel: Seq<char>) -> bool {
    channel.len() > 0 && channel[0] == 'D'
}

fn is_direct(channel: &str) -> (r: bool)
    ensures
        r == direct(channel@),
{
    channel.unicode_len() > 0 && channel.get_char(0) == 'D'
}

/// Whether the bot's id is needed to decide on a message: in a channel it has
/// to be mentioned.
pub fn needs_identity(e: &MessageEvent) -> (r: bool)
    ensures
        r == (!skippable(e@) && (e@.channel matches Some(c) && !direct(c))),
{
    if e.is_skippable() {
        return false;
    }
    match &e.channel {
        Some(c) => !is_direct(c.as_str()),
        None => false,
    }
}

/// The mention of a user.
pub open spec fn mention_of(id: Seq<char>) -> Seq<char> {
    "<@"@ + id + ">"@
}

/// The prompt of a message, where it is for the bot. A direct message is taken
/// as it is. In a channel the bot has to be mentioned; the mention is taken out,
/// and something has to be left.
pub open spec fn prompt_of(e: EventView, bot_id: Option<Seq<char>>) -> Option<Seq<char>> {
    if skippable(e) {
        None
    } else {
        match e.channel {
            None => None,
            Some(channel) => if direct(channel) {
                Some(e.text)
            } else {
                match bot_id {
                    None => None,
                    Some(id) => {
                        let left = text::trim(
                            text::replace_text(e.text, mention_of(id), Seq::empty()),
                        );
                        if !text::occurs(e.text, mention_of(id)) || left.len() == 0 {
                            None
                        } else {
                            Some(left)
                        }
                    },
                }
            },
        }
    }
}

/// The prompt of a message, where it is for the bot.
pub fn accept(e: &MessageEvent, bot_id: &Option<String>) -> (r: Option<String>)
    ensures
        text::opt_text(r) == prompt_of(e@, text::opt_text(*bot_id)),
{
    if e.is_skippable() {
        return None;
    }
    let channel: &String = match &e.channel {
        Some(c) => c,
        None => {
            return None;
        },
    };
    if is_direct(channel.as_str()) {
        return Some(e.text.clone());
    }
    match bot_id {
        None => None,
        Some(id) => {
            let mention: String = text::concat3("<@", id.as_str(), ">");
            if !text::contains_text(e.text.as_str(), mention.as_str()) {
                return None;
            }
            proof {
                reveal_strlit("<@");
                reveal_strlit("");
                assert(""@ =~= Seq::<char>::empty());
            }
            let bare: String = text::text_replaced(e.text.as_str(), mention.as_str(), "");
            let left: String = text::trimmed(bare.as_str());
            if left.as_str().unicode_len() == 0 {
                None
            } else {
                Some(left)
            }
        },
    }
}

/// The milliseconds of a timestamp: its whole seconds; 0 where there is none.
pub open spec fn ts_ms(ts: Option<Seq<char>>) -> i64 {
    match ts {
        None => 0,
        Some(t) => match text::parse_i64(text::split(t, '.')[0]) {
            Some(s) => if i64::MIN <= s * 1000 <= i64::MAX {
                (s * 1000) as i64
            } else {
                0
            },
            None => 0,
        },
    }
}

fn ts_in_ms(ts: &Option<String>) -> (r: i64)
    ensures
        r == ts_ms(text::opt_text(*ts)),
{
    match ts {
        None => 0,
        Some(t) => {
            let head: String = match text::cut_at_char(t.as_str(), '.') {
                Some((a, _)) => {
                    proof {
                        text::lemma_split_first(t@, '.', a@.len() as int);
                    }
                    a
                },
                None => {
                    proof {
                        text::lemma_split_first(t@, '.', t@.len() as int);
                        assert(t@.take(t@.len() as int) =~= t@);
                    }
                    t.clone()
                },
            };
            match text::parse_signed(head.as_str()) {
                Some(s) => if -9_223_372_036_854_775 <= s && s <= 9_223_372_036_854_775 {
                    s * 1000
                } else {
                    0
                },
                None => 0,
            }
        },
    }
}

/// The message for the engine. A reply goes to the thread of the message, or
/// opens one below it.
pub open spec fn message_of(
    e: EventView,
    channel: Seq<char>,
    prompt: Seq<char>,
    attachments: Seq<Attachment>,
) -> types::MessageView {
    let user = match e.user {
        Some(u) => u,
        None => Seq::empty(),
    };
    types::MessageView {
        key: types::session_key("slack"@, channel + "/"@ + user),
        text: prompt,
        attachments,
        reply_ctx: types::ReplyCtxView {
            channel: Some(channel),
            thread: match e.thread_ts {
                Some(t) => Some(t),
                None => e.ts,
            },
            user: e.user,
            extra: json::JsonView::Null,
        },
        timestamp_ms: ts_ms(e.ts),
    }
}

/// The message for the engine, out of one that was accepted and its downloaded
/// files. There is none without a channel.
pub fn to_message(e: &MessageEvent, prompt: String, attachments: Vec<Attachment>) -> (r: Option<
    Message,
>)
    ensures
        match (r, text::opt_text(e.channel)) {
            (Some(m), Some(channel)) => m@ == message_of(e@, channel, prompt@, attachments@),
            (None, None) => true,
            _ => false,
        },
{
    let channel: String = match &e.channel {
        Some(c) => c.clone(),
        None => {
            return None;
        },
    };
    let user: String = match &e.user {
        Some(u) => u.clone(),
        None => {
            let empty: String = String::new();
            assert(empty@ =~= Seq::<char>::empty());
            empty
        },
    };
    let scoped: String = text::concat3(channel.as_str(), "/", user.as_str());
    let thread: Option<String> = match &e.thread_ts {
        Some(t) => Some(t.clone()),
        None => types::copy_opt(&e.ts),
    };
    Some(
        Message {
            key: SessionKey::new("slack", scoped.as_str()),
            text: prompt,
            attachments,
            reply_ctx: ReplyCtx {
                channel: Some(channel),
                thread,
                user: types::copy_opt(&e.user),
                extra: Json::Null,
            },
            timestamp_ms: ts_in_ms(&e.ts),
        },
    )
}

/// A message of a bot, an edit or the like is never answered.
pub proof fn skippable_messages_are_not_answered(e: EventView, id: Option<Seq<char>>)
    requires
        skippable(e),
    ensures
        prompt_of(e, id) is None,
{
}

/// In a channel the bot answers only where it is mentioned.
pub proof fn channel_messages_need_a_mention(e: EventView, channel: Seq<char>, id: Seq<char>)
    requires
        e.channel == Some(channel),
        !direct(channel),
        !text::occurs(e.text, mention_of(id)),
    ensures
        prompt_of(e, Some(id)) is None,
        prompt_of(e, None) is None,
{
}

/// A direct message is always answered, word for word, also before the bot
/// knows its own id.
pub proof fn direct_messages_are_answered(
    e: EventView,
    channel: Seq<char>,
    id: Option<Seq<char>>,
)
    requires
        !skippable(e),
        e.channel == Some(channel),
        direct(channel),
    ensures
        prompt_of(e, id) == Some(e.text),
{
}

proof fn lemma_replace_nothing(s: Seq<char>, pat: Seq<char>, by: Seq<char>)
    requires
        !text::occurs(s, pat),
    ensures
        text::replace_text(s, pat, by) == s,
    decreases s.len(),
{
    if s.len() > 0 && pat.len() > 0 {
        assert(!text::occurs_at(s, pat, 0));
        let t = s.drop_first();
        assert forall|i: int| !#[trigger] text::occurs_at(t, pat, i) by {
            if text::occurs_at(t, pat, i) {
                assert(t.subrange(i, i + pat.len()) =~= s.subrange(i + 1, i + 1 + pat.len()));
                assert(text::occurs_at(s, pat, i + 1));
            }
        }
        lemma_replace_nothing(t, pat, by);
        assert(seq![s[0]] + t =~= s);
    }
}

/// The mention in front of a question is not part of the prompt.
pub proof fn leading_mention_is_stripped(
    e: EventView,
    channel: Seq<char>,
    id: Seq<char>,
    question: Seq<char>,
)
    requires
        !skippable(e),
        e.channel == Some(channel),
        !direct(channel),
        e.text == mention_of(id) + question,
        !text::occurs(question, mention_of(id)),
        text::trim(question).len() > 0,
    ensures
        prompt_of(e, Some(id)) == Some(text::trim(question)),
{
    reveal_strlit("<@");
    let tag = mention_of(id);
    assert(e.text.subrange(0, tag.len() as int) =~= tag);
    assert(text::occurs_at(e.text, tag, 0));
    assert(e.text.skip(tag.len() as int) =~= question);
    lemma_replace_nothing(question, tag, Seq::empty());
    assert(Seq::<char>::empty() + question =~= question);
}

// ── Files ───────────────────────────────────────────────────────────────

/// How a shared file is stored.
#[derive(Debug, PartialEq, Eq)]
pub struct Download {
    pub url: String,
    pub mime: String,
    pub kind: AttachmentKind,
    pub name: String,
}

/// The kind of a file, by its media type.
pub open spec fn kind_of(mime: Seq<char>) -> AttachmentKind {
    if text::has_prefix(mime, "image/"@) {
        AttachmentKind::Image
    } else if text::has_prefix(mime, "audio/"@) {
        AttachmentKind::Audio
    } else {
        AttachmentKind::File
    }
}

/// The media type of a file.
pub open spec fn mime_of(f: FileView) -> Seq<char> {
    match f.mimetype {
        Some(m) => m,
        None => "application/octet-stream"@,
    }
}

/// How a shared file is fetched and stored. Its name is the sender's choice,
/// and made safe.
pub fn plan_download(f: &SlackFile) -> (r: Option<Download>)
    ensures
        match (r, f@.url) {
            (Some(d), Some(url)) => d.url@ == url && d.mime@ == mime_of(f@) && d.kind == kind_of(
                mime_of(f@),
            ) && d.name@ == types::safe_name(
                match f@.name {
                    Some(n) => n,
                    None => f@.id,
                },
            ),
            (None, None) => true,
            _ => false,
        },
{
    let url: String = match &f.url_private_download {
        Some(u) => u.clone(),
        None => {
            return None;
        },
    };
    let mime: String = match &f.mimetype {
        Some(m) => m.clone(),
        None => "application/octet-stream".to_string(),
    };
    let kind: AttachmentKind = if text::starts_with(mime.as_str(), "image/") {
        AttachmentKind::Image
    } else if text::starts_with(mime.as_str(), "audio/") {
        AttachmentKind::Audio
    } else {
        AttachmentKind::File
    };
    let name: String = match &f.name {
        Some(n) => types::safe_filename(n.as_str()),
        None => types::safe_filename(f.id.as_str()),
    };
    Some(Download { url, mime, kind, name })
}

// ── Outbound ────────────────────────────────────────────────────────────

/// A body that posts a text, in the thread of the context.
pub open spec fn reply_json(channel: Seq<char>, thread: Option<Seq<char>>, t: Seq<char>) -> json::JsonView {
    let head = seq![("channel"@, json::JsonView::Str(channel)), ("text"@, json::JsonView::Str(t))];
    json::JsonView::Object(
        match thread {
            Some(ts) => head.push(("thread_ts"@, json::JsonView::Str(ts))),
            None => head,
        },
    )
}

/// The body that posts a text.
pub fn reply(ctx: &ReplyCtx, t: &str) -> (r: Result<Json, String>)
    ensures
        match (r, text::opt_text(ctx.channel)) {
            (Ok(body), Some(channel)) => body@ == reply_json(
                channel,
                text::opt_text(ctx.thread),
                t@,
            ),
            (Err(e), None) => e@ == "Slack reply requires channel"@,
            _ => false,
        },
{
    let channel: &String = match &ctx.channel {
        Some(c) => c,
        None => {
            return Err("Slack reply requires channel".to_string());
        },
    };
    let head: Members = Members::new().with_str("channel", channel.as_str()).with_str("text", t);
    let m: Members = match &ctx.thread {
        Some(ts) => head.with_str("thread_ts", ts.as_str()),
        None => head,
    };
    assert(m@ =~= reply_json(channel@, text::opt_text(ctx.thread), t@)->Object_0);
    Ok(m.object())
}

/// A reply to a message is posted in its thread, or opens one below it.
pub proof fn replies_stay_in_their_thread(
    e: EventView,
    channel: Seq<char>,
    prompt: Seq<char>,
    attachments: Seq<Attachment>,
    answer: Seq<char>,
    ts: Seq<char>,
)
    requires
        e.thread_ts == Some(ts) || (e.thread_ts is None && e.ts == Some(ts)),
    ensures
        ({
            let ctx = message_of(e, channel, prompt, attachments).reply_ctx;
            reply_json(ctx.channel->Some_0, ctx.thread, answer).get_text("thread_ts"@) == Some(ts)
        }),
{
    let ctx = message_of(e, channel, prompt, attachments).reply_ctx;
    let o = reply_json(ctx.channel->Some_0, ctx.thread, answer)->Object_0;
    reveal_strlit("channel");
    reveal_strlit("text");
    reveal_strlit("thread_ts");
    assert("channel"@.len() != "thread_ts"@.len());
    assert("text"@.len() != "thread_ts"@.len());
    assert(o.drop_first().drop_first()[0] == o[2]);
    reveal_with_fuel(json::member, 4);
}

/// A reply of the Web interface: refused, or with the wanted field.
#[derive(Debug, PartialEq, Eq)]
pub enum ApiReply {
    /// It is no reply.
    Malformed,
    /// The request is refused, for this reason.
    Refused(String),
    /// The wanted field is not there.
    Missing,
    Value(String),
}

pub enum ApiView {
    Malformed,
    Refused(Seq<char>),
    Missing,
    Value(Seq<char>),
}

impl View for ApiReply {
    type V = ApiView;

    open spec fn view(&self) -> ApiView {
        match self {
            ApiReply::Malformed => ApiView::Malformed,
            ApiReply::Refused(e) => ApiView::Refused(e@),
            ApiReply::Missing => ApiView::Missing,
            ApiReply::Value(v) => ApiView::Value(v@),
        }
    }
}

/// The fields of the reply of which `field` is wanted.
pub open spec fn reply_fields(field: Seq<char>) -> Seq<Seq<char>> {
    if field == "upload_url"@ || field == "file_id"@ {
        seq!["ok"@, "error"@, "upload_url"@, "file_id"@]
    } else if field == "error"@ {
        seq!["ok"@, "error"@]
    } else {
        seq!["ok"@, field, "error"@]
    }
}

/// What a reply of the Web interface says.
pub open spec fn reply_from(j: json::JsonView, field: Seq<char>) -> ApiView {
    let j = json::as_struct(j, reply_fields(field), reply_fields(field).len() as int);
    let ok = match j.get("ok"@) {
        Some(b) => b.truth(),
        None => None,
    };
    match (ok, codec::opt_text_at(j, "error"@), codec::opt_text_at(j, field)) {
        (Some(ok), Ok(error), Ok(value)) => if !ok {
            ApiView::Refused(
                match error {
                    Some(e) => e,
                    None => Seq::empty(),
                },
            )
        } else {
            match value {
                Some(v) => ApiView::Value(v),
                None => ApiView::Missing,
            }
        },
        _ => ApiView::Malformed,
    }
}

/// What a reply of the Web interface says. `field` is the wanted one:
/// `user_id` of `auth.test`, `url` of `apps.connections.open`, `upload_url` and
/// `file_id` of `files.getUploadURLExternal`.
pub fn read_reply(j: &Json, field: &str) -> (r: ApiReply)
    ensures
        r@ == reply_from(j@, field@),
{
    let names: Vec<&str> = if text::same(field, "upload_url") || text::same(field, "file_id") {
        vec!["ok", "error", "upload_url", "file_id"]
    } else if text::same(field, "error") {
        vec!["ok", "error"]
    } else {
        vec!["ok", field, "error"]
    };
    assert(json::strs(names@) =~= reply_fields(field@));
    let j: &Json = &j.as_struct(&names, names.len());
    let ok: bool = match j.get("ok") {
        Some(b) => match b.as_bool() {
            Some(t) => t,
            None => {
                return ApiReply::Malformed;
            },
        },
        None => {
            return ApiReply::Malformed;
        },
    };
    match (codec::opt_text_of(j, "error"), codec::opt_text_of(j, field)) {
        (Ok(error), Ok(value)) => if !ok {
            match error {
                Some(e) => ApiReply::Refused(e),
                None => {
                    let empty: String = String::new();
                    assert(empty@ =~= Seq::<char>::empty());
                    ApiReply::Refused(empty)
                },
            }
        } else {
            match value {
                Some(v) => ApiReply::Value(v),
                None => ApiReply::Missing,
            }
        },
        _ => ApiReply::Malformed,
    }
}

/// What a call yields, or why it does not.
pub open spec fn demanded(r: ApiView, call: Seq<char>, missing: Seq<char>) -> Result<
    Seq<char>,
    Seq<char>,
> {
    match r {
        ApiView::Malformed => Err(call + ": malformed reply"@),
        ApiView::Refused(e) => Err(call + " failed: "@ + e),
        ApiView::Missing => Err(missing),
        ApiView::Value(v) => Ok(v),
    }
}

pub open spec fn result_texts(r: Result<String, String>) -> Result<Seq<char>, Seq<char>> {
    match r {
        Ok(v) => Ok(v@),
        Err(e) => Err(e@),
    }
}

fn demand(r: ApiReply, call: &str, missing: &str) -> (out: Result<String, String>)
    ensures
        result_texts(out) == demanded(r@, call@, missing@),
{
    match r {
        ApiReply::Malformed => Err(text::concat2(call, ": malformed reply")),
        ApiReply::Refused(e) => Err(text::concat3(call, " failed: ", e.as_str())),
        ApiReply::Missing => Err(missing.to_string()),
        ApiReply::Value(v) => Ok(v),
    }
}

/// The bot's own id, out of the reply of `auth.test`.
pub fn bot_identity(j: &Json) -> (r: Result<String, String>)
    ensures
        result_texts(r) == demanded(
            reply_from(j@, "user_id"@),
            "auth.test"@,
            "auth.test returned no user_id"@,
        ),
{
    demand(read_reply(j, "user_id"), "auth.test", "auth.test returned no user_id")
}

/// The address of the socket, out of the reply of `apps.connections.open`.
pub fn socket_url(j: &Json) -> (r: Result<String, String>)
    ensures
        result_texts(r) == demanded(
            reply_from(j@, "url"@),
            "apps.connections.open"@,
            "no wss url returned"@,
        ),
{
    demand(read_reply(j, "url"), "apps.connections.open", "no wss url returned")
}

/// Where a file is uploaded and the id it gets, out of the reply of
/// `files.getUploadURLExternal`.
pub fn upload_target(j: &Json) -> (r: Result<(String, String), String>)
    ensures
        ({
            let url = demanded(
                reply_from(j@, "upload_url"@),
                "getUploadURLExternal"@,
                "missing upload_url"@,
            );
            let id = demanded(
                reply_from(j@, "file_id"@),
                "getUploadURLExternal"@,
                "missing file_id"@,
            );
            match r {
                Ok((u, f)) => url == Ok::<Seq<char>, Seq<char>>(u@) && id == Ok::<
                    Seq<char>,
                    Seq<char>,
                >(f@),
                Err(e) => url == Err::<Seq<char>, Seq<char>>(e@) || (url is Ok && id == Err::<
                    Seq<char>,
                    Seq<char>,
                >(e@)),
            }
        }),
{
    match demand(
        read_reply(j, "upload_url"),
        "getUploadURLExternal",
        "missing upload_url",
    ) {
        Err(e) => Err(e),
        Ok(url) => match demand(
            read_reply(j, "file_id"),
            "getUploadURLExternal",
            "missing file_id",
        ) {
            Err(e) => Err(e),
            Ok(id) => Ok((url, id)),
        },
    }
}

/// Whether an upload was completed, by the reply of
/// `files.completeUploadExternal`; why not, if it was not.
pub fn upload_completed(j: &Json) -> (r: Option<String>)
    ensures
        text::opt_text(r) == match reply_from(j@, "error"@) {
            ApiView::Malformed => Some("completeUploadExternal"@ + ": malformed reply"@),
            ApiView::Refused(e) => Some("completeUploadExternal"@ + " failed: "@ + e),
            _ => None,
        },
{
    match read_reply(j, "error") {
        ApiReply::Malformed => Some(text::concat2("completeUploadExternal", ": malformed reply")),
        ApiReply::Refused(e) => Some(
            text::concat3("completeUploadExternal", " failed: ", e.as_str()),
        ),
        _ => None,
    }
}

/// The body that completes an upload.
pub open spec fn complete_json(file_id: Seq<char>, title: Seq<char>, channel: Seq<char>) -> json::JsonView {
    json::JsonView::Object(
        seq![
            (
                "files"@,
                json::JsonView::Array(
                    seq![
                        json::JsonView::Object(
                            seq![
                                ("id"@, json::JsonView::Str(file_id)),
                                ("title"@, json::JsonView::Str(title)),
                            ],
                        ),
                    ],
                ),
            ),
            ("channel_id"@, json::JsonView::Str(channel)),
        ],
    )
}

/// The body that completes an upload.
pub fn complete_body(file_id: &str, title: &str, channel: &str) -> (r: Json)
    ensures
        r@ == complete_json(file_id@, title@, channel@),
{
    let file: Members = Members::new().with_str("id", file_id).with_str("title", title);
    let ghost inner = file@;
    let m: Members = Members::new().with("files", json::single_json(file.object())).with_str(
        "channel_id",
        channel,
    );
    proof {
        let want = complete_json(file_id@, title@, channel@)->Object_0;
        assert(inner =~= want[0].1->Array_0[0]->Object_0);
        assert(m@[0].1->Array_0 =~= want[0].1->Array_0);
        assert(m@ =~= want);
    }
    m.object()
}

// ── Reconnecting ────────────────────────────────────────────────────────

/// The wait before the next connection, in seconds.
pub struct Backoff {
    pub secs: u64,
}

/// The wait after a wait: twice as long, a minute at most.
pub open spec fn longer(secs: u64) -> u64 {
    if 2 * secs < 60 {
        (2 * secs) as u64
    } else {
        60
    }
}

impl Backoff {
    pub open spec fn wf(&self) -> bool {
        1 <= self.secs <= 60
    }

    pub fn new() -> (r: Backoff)
        ensures
            r.wf(),
            r.secs == 1,
    {
        Backoff { secs: 1 }
    }

    /// The connection ended in order: the next one is opened at once, and the
    /// waits start over.
    pub fn ended(&mut self)
        ensures
            final(self).wf(),
            final(self).secs == 1,
    {
        self.secs = 1;
    }

    /// The connection failed: how long to wait.
    pub fn failed(&mut self) -> (r: u64)
        requires
            old(self).wf(),
        ensures
            r == old(self).secs,
            final(self).wf(),
            final(self).secs == longer(old(self).secs),
    {
        let wait: u64 = self.secs;
        let twice: u64 = 2 * wait;
        self.secs = if twice < 60 {
            twice
        } else {
            60
        };
        wait
    }
}

/// The wait after so many failures in a row.
pub open spec fn wait_after(n: nat) -> u64
    decreases n,
{
    if n == 0 {
        1
    } else {
        longer(wait_after((n - 1) as nat))
    }
}

/// The waits double from one second to a minute, and stay there.
pub proof fn waits_double_up_to_a_minute(n: nat)
    ensures
        1 <= wait_after(n) <= 60,
        wait_after(n + 1) == (if 2 * wait_after(n) < 60 {
            2 * wait_after(n)
        } else {
            60
        }),
        n >= 6 ==> wait_after(n) == 60,
    decreases n,
{
    if n > 0 {
        waits_double_up_to_a_minute((n - 1) as nat);
        if n == 6 {
            reveal_with_fuel(wait_after, 8);
        }
    }
}

// ── Laws ────────────────────────────────────────────────────────────────

/// A mention anywhere in a channel message asks the bot; it gets the rest of the
/// text, without the white space round it.
pub proof fn mention_is_taken_out(
    e: EventView,
    channel: Seq<char>,
    id: Seq<char>,
    before: Seq<char>,
    after: Seq<char>,
)
    requires
        e.bot_id is None,
        e.subtype is None,
        e.channel == Some(channel),
        channel.len() == 0 || channel[0] != 'D',
        e.text == before + ("<@"@ + id + ">"@) + after,
        forall|i: int|
            0 <= i < before.len() ==> !#[trigger] text::occurs_at(e.text, "<@"@ + id + ">"@, i),
        !text::occurs(after, "<@"@ + id + ">"@),
    ensures
        text::trim(before + after).len() > 0 ==> prompt_of(e, Some(id)) == Some(
            text::trim(before + after),
        ),
        text::trim(before + after).len() == 0 ==> prompt_of(e, Some(id)) is None,
{
    let m = "<@"@ + id + ">"@;
    reveal_strlit("<@");
    text::replacing_takes_the_pattern(before, after, m, Seq::empty());
    text::replacing_leaves_the_rest(after, m, Seq::empty());
    assert(before + Seq::<char>::empty() + after =~= before + after);
    let n = before.len() as int;
    assert(e.text.subrange(n, n + m.len()) =~= m);
    assert(text::occurs_at(e.text, m, n));
}

/// The bot answers what people write, with files or without: no bot, no message that
/// was edited, deleted or posted by the workspace, and nothing without a channel.
pub proof fn only_people_are_answered(e: EventView, id: Option<Seq<char>>, subtype: Seq<char>)
    ensures
        e.bot_id is Some ==> prompt_of(e, id) is None,
        e.subtype == Some(subtype) && subtype != "file_share"@ ==> prompt_of(e, id) is None,
        e.channel is None ==> prompt_of(e, id) is None,
        e.bot_id is None && (e.subtype is None || e.subtype == Some("file_share"@)) && (e.channel
            matches Some(c) && c.len() > 0 && c[0] == 'D') ==> prompt_of(e, id) == Some(e.text),
{
}

/// A message belongs to the conversation of its user in its channel and is answered
/// in its thread, or else in a thread under it; it is as old as its stamp says.
pub proof fn messages_carry_where_they_were_written(
    e: EventView,
    channel: Seq<char>,
    user: Seq<char>,
    prompt: Seq<char>,
    files: Seq<Attachment>,
    secs: nat,
    rest: Seq<char>,
)
    requires
        e.user == Some(user),
        e.ts == Some(text::decimal(secs) + "."@ + rest),
        secs * 1000 <= i64::MAX,
    ensures
        ({
            let m = message_of(e, channel, prompt, files);
            &&& m.key == "slack"@ + ":"@ + (channel + "/"@ + user)
            &&& m.text == prompt
            &&& m.attachments == files
            &&& m.timestamp_ms == secs * 1000
            &&& m.reply_ctx.channel == Some(channel)
            &&& m.reply_ctx.user == Some(user)
            &&& m.reply_ctx.thread == (if e.thread_ts is Some {
                e.thread_ts
            } else {
                e.ts
            })
            &&& m.reply_ctx.extra is Null
        }),
        ts_ms(None) == 0,
        text::parse_i64(text::split(rest, '.')[0]) is None ==> ts_ms(Some(rest)) == 0,
        text::parse_i64(text::split(rest, '.')[0]) == Some(i64::MAX) ==> ts_ms(Some(rest)) == 0,
{
    let d = text::decimal(secs);
    let t = d + "."@ + rest;
    reveal_strlit(".");
    text::decimal_reads_back(secs);
    assert forall|j: int| 0 <= j < d.len() implies t[j] != '.' by {
        assert(t[j] == d[j]);
        assert(text::is_digit(d[j]));
    }
    assert(t[d.len() as int] == '.');
    text::lemma_split_first(t, '.', d.len() as int);
    assert(t.take(d.len() as int) =~= d);
    assert(text::is_digit(d[0]));
    assert(text::parse_int(d) == Some(secs as int));
}

/// A message is read from the event of its payload, each field under its name.
pub proof fn message_events_are_read(
    p: json::JsonView,
    e: json::JsonView,
    channel: Seq<char>,
    user: Seq<char>,
    said: Seq<char>,
    ts: Seq<char>,
)
    requires
        p is Object,
        p.get("team_id"@) is None,
        p.get("event"@) == Some(e),
        e is Object,
        e.get("type"@) == Some(json::JsonView::Str("message"@)),
        e.get("channel"@) == Some(json::JsonView::Str(channel)),
        e.get("user"@) == Some(json::JsonView::Str(user)),
        e.get("text"@) == Some(json::JsonView::Str(said)),
        e.get("ts"@) == Some(json::JsonView::Str(ts)),
        e.get("thread_ts"@) is None,
        e.get("bot_id"@) is None,
        e.get("subtype"@) is None,
        e.get("files"@) is None,
    ensures
        payload_from(p) == Some(
            (
                None::<Seq<char>>,
                Some(
                    EventView {
                        channel: Some(channel),
                        user: Some(user),
                        text: said,
                        ts: Some(ts),
                        thread_ts: None,
                        bot_id: None,
                        subtype: None,
                        files: Seq::empty(),
                    },
                ),
            ),
        ),
{
}

/// The thread, the sender and the sort of a message are read where they are given.
pub proof fn marks_of_messages_are_read(
    e: json::JsonView,
    thread: Seq<char>,
    bot: Seq<char>,
    subtype: Seq<char>,
    got: EventView,
)
    requires
        e is Object,
        e.get("thread_ts"@) == Some(json::JsonView::Str(thread)),
        e.get("bot_id"@) == Some(json::JsonView::Str(bot)),
        e.get("subtype"@) == Some(json::JsonView::Str(subtype)),
        event_from(e) == Some(got),
    ensures
        got.thread_ts == Some(thread),
        got.bot_id == Some(bot),
        got.subtype == Some(subtype),
{
}

/// A shared file is read with its name, its type, its address and its size.
pub proof fn shared_files_are_read(
    a: Seq<json::JsonView>,
    j: json::JsonView,
    id: Seq<char>,
    name: Seq<char>,
    mime: Seq<char>,
    url: Seq<char>,
    size: u64,
    v: Seq<FileView>,
)
    requires
        j is Object,
        j.get("id"@) == Some(json::JsonView::Str(id)),
        j.get("name"@) == Some(json::JsonView::Str(name)),
        j.get("mimetype"@) == Some(json::JsonView::Str(mime)),
        j.get("url_private_download"@) == Some(json::JsonView::Str(url)),
        j.get("size"@) == Some(json::int_json(size as int)),
        files_from(a) == Some(v),
    ensures
        files_from(a.push(j)) == Some(
            v.push(
                FileView {
                    id,
                    name: Some(name),
                    mimetype: Some(mime),
                    url: Some(url),
                    size: Some(size),
                },
            ),
        ),
{
    assert(a.push(j).drop_last() =~= a);
    text::decimal_reads_back(size as nat);
}

/// Only an envelope of events holds a message; every envelope is acknowledged by its
/// id.
pub proof fn envelopes_hold_messages(
    j: json::JsonView,
    id: Seq<char>,
    kind: Seq<char>,
    payload: json::JsonView,
    team: Option<Seq<char>>,
    m: Option<EventView>,
)
    requires
        j is Object,
        j.get("envelope_id"@) == Some(json::JsonView::Str(id)),
        j.get("type"@) == Some(json::JsonView::Str(kind)),
        j.get("payload"@) == Some(payload),
        payload_from(payload) == Some((team, m)),
    ensures
        envelope_from(j) matches Some(e) && unwrapped(e).0 == Some(
            json::JsonView::Object(seq![("envelope_id"@, json::JsonView::Str(id))]),
        ) && (kind == "events_api"@ ==> unwrapped(e).1 == m) && (kind != "events_api"@
            ==> unwrapped(e).1 is None),
{
}

/// A reply holds the channel and the text, and the thread where there is one.
pub proof fn replies_hold_channel_and_text(channel: Seq<char>, ts: Seq<char>, t: Seq<char>)
    ensures
        reply_json(channel, None, t) == json::JsonView::Object(
            seq![("channel"@, json::JsonView::Str(channel)), ("text"@, json::JsonView::Str(t))],
        ),
        reply_json(channel, Some(ts), t) == json::JsonView::Object(
            seq![
                ("channel"@, json::JsonView::Str(channel)),
                ("text"@, json::JsonView::Str(t)),
                ("thread_ts"@, json::JsonView::Str(ts)),
            ],
        ),
{
    let head = seq![("channel"@, json::JsonView::Str(channel)), ("text"@, json::JsonView::Str(t))];
    assert(head.push(("thread_ts"@, json::JsonView::Str(ts))) =~= seq![
        ("channel"@, json::JsonView::Str(channel)),
        ("text"@, json::JsonView::Str(t)),
        ("thread_ts"@, json::JsonView::Str(ts)),
    ]);
}

/// A call that went well gives the value that was asked for, and an error that says
/// so if it is missing; one that did not gives the reason.
pub proof fn calls_give_a_value_or_a_reason(
    j: json::JsonView,
    field: Seq<char>,
    call: Seq<char>,
    missing: Seq<char>,
    v: Seq<char>,
    e: Seq<char>,
)
    requires
        j is Object,
    ensures
        j.get("ok"@) == Some(json::JsonView::Bool(true)) && j.get("error"@) is None && j.get(field)
            == Some(json::JsonView::Str(v)) ==> demanded(reply_from(j, field), call, missing)
            == Ok::<Seq<char>, Seq<char>>(v),
        j.get("ok"@) == Some(json::JsonView::Bool(true)) && j.get("error"@) is None && j.get(field)
            is None ==> demanded(reply_from(j, field), call, missing) == Err::<
            Seq<char>,
            Seq<char>,
        >(missing),
        j.get("ok"@) == Some(json::JsonView::Bool(false)) && j.get("error"@) == Some(
            json::JsonView::Str(e),
        ) && j.get(field) is None ==> demanded(reply_from(j, field), call, missing) == Err::<
            Seq<char>,
            Seq<char>,
        >(call + " failed: "@ + e),
        j.get("ok"@) is None ==> demanded(reply_from(j, field), call, missing) == Err::<
            Seq<char>,
            Seq<char>,
        >(call + ": malformed reply"@),
{
}

/// An upload is completed for its file, under its title, in its channel.
pub proof fn uploads_are_completed_in_their_channel(
    file_id: Seq<char>,
    title: Seq<char>,
    channel: Seq<char>,
)
    ensures
        complete_json(file_id, title, channel) == json::JsonView::Object(
            seq![
                (
                    "files"@,
                    json::JsonView::Array(
                        seq![
                            json::JsonView::Object(
                                seq![
                                    ("id"@, json::JsonView::Str(file_id)),
                                    ("title"@, json::JsonView::Str(title)),
                                ],
                            ),
                        ],
                    ),
                ),
                ("channel_id"@, json::JsonView::Str(channel)),
            ],
        ),
{
}

/// A file is of the kind that its type starts with, and without a type it is any
/// bytes.
pub proof fn files_are_of_the_kind_of_their_type(f: FileView, t: Seq<char>)
    ensures
        kind_of("image/"@ + t) == AttachmentKind::Image,
        kind_of("audio/"@ + t) == AttachmentKind::Audio,
        kind_of("video/"@ + t) == AttachmentKind::File,
        kind_of("application/"@ + t) == AttachmentKind::File,
        f.mimetype is None ==> mime_of(f) == "application/octet-stream"@,
        f.mimetype == Some(t) ==> mime_of(f) == t,
{
    reveal_strlit("image/");
    reveal_strlit("audio/");
    reveal_strlit("video/");
    reveal_strlit("application/");
    assert(("image/"@ + t).subrange(0, 6) =~= "image/"@);
    assert(("audio/"@ + t).subrange(0, 6) =~= "audio/"@);
    assert(("audio/"@ + t).subrange(0, 6)[0] == 'a');
    assert(("video/"@ + t).subrange(0, 6)[0] == 'v');
    assert(("application/"@ + t).subrange(0, 6)[1] == 'p');
    assert("image/"@[0] == 'i' && "image/"@[1] == 'm' && "audio/"@[0] == 'a' && "audio/"@[1] == 'u');
}

/// An event that is no message holds none.
pub proof fn other_events_hold_no_message(p: json::JsonView, e: json::JsonView, kind: Seq<char>)
    requires
        p is Object,
        p.get("team_id"@) is None,
        p.get("event"@) == Some(e),
        e is Object,
        e.get("type"@) == Some(json::JsonView::Str(kind)),
        kind != "message"@,
    ensures
        payload_from(p) == Some((None::<Seq<char>>, None::<EventView>)),
{
}

} // verus!
