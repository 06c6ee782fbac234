//! LINE: the signed webhook, inbound messages, and replies. A reply token is
//! tried first, since that is free; a push message, which is counted, is the
//! fallback.

use vstd::prelude::*;
use vstd::string::*;

use crate::codec;
use crate::json;
use crate::json::{Json, Members};
use crate::sign;
use crate::split;
use crate::text;
use crate::types;
use crate::types::{Attachment, AttachmentKind, Message, ReplyCtx, SessionKey};

verus! {

/// How long a reply token is used, in milliseconds.
pub const REPLY_TOKEN_TTL_MS: i64 = 25_000;

/// The longest message, in bytes.
pub const LINE_TEXT_MAX: usize = 5000;

/// How many messages one call carries.
pub const LINE_MESSAGES_PER_CALL: usize = 5;

#[derive(Debug, PartialEq, Eq)]
pub struct LineConfig {
    pub channel_secret: String,
    pub channel_token: String,
    pub bind: String,
    /// The users that are served; where it is empty, everyone is.
    pub allowlist: Vec<String>,
    /// How many push messages may be sent in a month; without it, any number.
    pub push_limit: Option<u64>,
}

pub struct LinePlatform {
    pub cfg: LineConfig,
    /// When the bridge started: what happened before is not replayed.
    pub boot_ms: i64,
    pub push_count: u64,
}

// ── The webhook ─────────────────────────────────────────────────────────

#[derive(Debug, PartialEq, Eq)]
pub struct ContentProvider {
    pub kind: String,
    pub original_content_url: Option<String>,
}

#[derive(Debug, PartialEq, Eq)]
pub struct EventMessage {
    pub kind: String,
    pub text: Option<String>,
    pub id: Option<String>,
    pub file_name: Option<String>,
    pub content_provider: Option<ContentProvider>,
}

#[derive(Debug, PartialEq, Eq)]
pub struct EventEnvelope {
    pub timestamp: i64,
    pub user_id: Option<String>,
    pub reply_token: Option<String>,
    pub message: Option<EventMessage>,
}

#[derive(Debug, PartialEq, Eq)]
pub struct WebhookPayload {
    pub events: Vec<EventEnvelope>,
}

pub struct ProviderView {
    pub kind: Seq<char>,
    pub url: Option<Seq<char>>,
}

pub struct LineMessageView {
    pub kind: Seq<char>,
    pub text: Option<Seq<char>>,
    pub id: Option<Seq<char>>,
    pub file_name: Option<Seq<char>>,
    pub provider: Option<ProviderView>,
}

pub struct EnvelopeView {
    pub timestamp: i64,
    pub user_id: Option<Seq<char>>,
    pub reply_token: Option<Seq<char>>,
    pub message: Option<LineMessageView>,
}

impl View for ContentProvider {
    type V = ProviderView;

    open spec fn view(&self) -> ProviderView {
        ProviderView { kind: self.kind@, url: text::opt_text(self.original_content_url) }
    }
}

impl View for EventMessage {
    type V = LineMessageView;

    open spec fn view(&self) -> LineMessageView {
        LineMessageView {
            kind: self.kind@,
            text: text::opt_text(self.text),
            id: text::opt_text(self.id),
            file_name: text::opt_text(self.file_name),
            provider: match self.content_provider {
                Some(p) => Some(p@),
                None => None,
            },
        }
    }
}

impl View for EventEnvelope {
    type V = EnvelopeView;

    open spec fn view(&self) -> EnvelopeView {
        EnvelopeView {
            timestamp: self.timestamp,
            user_id: text::opt_text(self.user_id),
            reply_token: text::opt_text(self.reply_token),
            message: match self.message {
                Some(m) => Some(m@),
                None => None,
            },
        }
    }
}

impl Clone for ContentProvider {
    fn clone(&self) -> (r: ContentProvider)
        ensures
            r == *self,
    {
        ContentProvider {
            kind: self.kind.clone(),
            original_content_url: types::copy_opt(&self.original_content_url),
        }
    }
}

impl Clone for EventMessage {
    fn clone(&self) -> (r: EventMessage)
        ensures
            r == *self,
    {
        EventMessage {
            kind: self.kind.clone(),
            text: types::copy_opt(&self.text),
            id: types::copy_opt(&self.id),
            file_name: types::copy_opt(&self.file_name),
            content_provider: match &self.content_provider {
                Some(p) => Some(p.clone()),
                None => None,
            },
        }
    }
}

pub open spec fn envelope_views(v: Seq<EventEnvelope>) -> Seq<EnvelopeView> {
    Seq::new(v.len(), |i: int| v[i]@)
}

/// The fields of a content provider.
pub open spec fn provider_fields() -> Seq<Seq<char>> {
    seq!["type"@, "originalContentUrl"@]
}

/// The fields of a message.
pub open spec fn message_fields() -> Seq<Seq<char>> {
    seq!["type"@, "text"@, "id"@, "fileName"@, "contentProvider"@]
}

/// The fields of an event in a list of them.
pub open spec fn envelope_fields() -> Seq<Seq<char>> {
    seq!["timestamp"@, "source"@, "message"@]
}

/// Where a content comes from: absent or null, or a provider with a type.
pub open spec fn provider_from(j: json::JsonView) -> Result<Option<ProviderView>, ()> {
    match j.get("contentProvider"@) {
        None => Ok(None),
        Some(json::JsonView::Null) => Ok(None),
        Some(p) => {
            let p = json::as_struct(p, provider_fields(), 1);
            match (p.get_text("type"@), codec::opt_text_at(p, "originalContentUrl"@)) {
                (Some(kind), Ok(url)) => Ok(Some(ProviderView { kind, url })),
                _ => Err(()),
            }
        },
    }
}

/// A message has a type.
pub open spec fn line_message_from(j: json::JsonView) -> Option<LineMessageView> {
    let j = json::as_struct(j, message_fields(), 2);
    match (
        j.get_text("type"@),
        codec::opt_text_at(j, "text"@),
        codec::opt_text_at(j, "id"@),
        codec::opt_text_at(j, "fileName"@),
        provider_from(j),
    ) {
        (Some(kind), Ok(text), Ok(id), Ok(file_name), Ok(provider)) => Some(
            LineMessageView { kind, text, id, file_name, provider },
        ),
        _ => None,
    }
}

/// The time of an event; without one it is 0.
pub open spec fn timestamp_from(j: json::JsonView) -> Option<i64> {
    match j.get("timestamp"@) {
        None => Some(0),
        Some(v) => v.integer(),
    }
}

/// The user that an event comes from. The source is required, the user is not.
pub open spec fn user_from(j: json::JsonView) -> Result<Option<Seq<char>>, ()> {
    match j.get("source"@) {
        None => Err(()),
        Some(s) => {
            let s = json::as_struct(s, seq!["userId"@], 1);
            if s is Object {
                codec::opt_text_at(s, "userId"@)
            } else {
                Err(())
            }
        },
    }
}

/// The message of an event, if it has one.
pub open spec fn body_from(j: json::JsonView) -> Result<Option<LineMessageView>, ()> {
    match j.get("message"@) {
        None => Ok(None),
        Some(json::JsonView::Null) => Ok(None),
        Some(m) => match line_message_from(m) {
            Some(m) => Ok(Some(m)),
            None => Err(()),
        },
    }
}

/// An event of a webhook.
pub open spec fn envelope_from(j: json::JsonView) -> Option<EnvelopeView> {
    let j = json::as_struct(j, envelope_fields(), 3);
    match (
        timestamp_from(j),
        user_from(j),
        codec::opt_text_at(j, "replyToken"@),
        body_from(j),
    ) {
        (Some(timestamp), Ok(user_id), Ok(reply_token), Ok(message)) => Some(
            EnvelopeView { timestamp, user_id, reply_token, message },
        ),
        _ => None,
    }
}

/// A list of events; an error in one is an error of all.
pub open spec fn envelopes_from(a: Seq<json::JsonView>) -> Option<Seq<EnvelopeView>>
    decreases a.len(),
{
    if a.len() == 0 {
        Some(Seq::empty())
    } else {
        match (envelopes_from(a.drop_last()), envelope_from(a.last())) {
            (Some(v), Some(e)) => Some(v.push(e)),
            _ => None,
        }
    }
}

/// The events of a webhook body.
pub open spec fn webhook_from(j: json::JsonView) -> Option<Seq<EnvelopeView>> {
    let j = json::as_struct(j, seq!["events"@], 1);
    match j.get("events"@) {
        Some(json::JsonView::Array(a)) => envelopes_from(a),
        _ => None,
    }
}

fn read_provider(j: &Json) -> (r: Result<Option<ContentProvider>, ()>)
    ensures
        match r {
            Ok(Some(p)) => provider_from(j@) == Ok::<Option<ProviderView>, ()>(Some(p@)),
            Ok(None) => provider_from(j@) == Ok::<Option<ProviderView>, ()>(None),
            Err(_) => provider_from(j@) is Err,
        },
{
    match j.get("contentProvider") {
        None => Ok(None),
        Some(p) => match p {
            Json::Null => Ok(None),
            _ => {
                let names: Vec<&str> = vec!["type", "originalContentUrl"];
                assert(json::strs(names@) =~= provider_fields());
                let p: &Json = &p.as_struct(&names, 1);
                match (p.get_text("type"), codec::opt_text_of(p, "originalContentUrl")) {
                    (Some(kind), Ok(original_content_url)) => Ok(
                        Some(ContentProvider { kind, original_content_url }),
                    ),
                    _ => Err(()),
                }
            },
        },
    }
}

fn read_line_message(j: &Json) -> (r: Option<EventMessage>)
    ensures
        match r {
            Some(m) => line_message_from(j@) == Some(m@),
            None => line_message_from(j@) is None,
        },
{
    let names: Vec<&str> = vec!["type", "text", "id", "fileName", "contentProvider"];
    assert(json::strs(names@) =~= message_fields());
    let j: &Json = &j.as_struct(&names, 2);
    match (
        j.get_text("type"),
        codec::opt_text_of(j, "text"),
        codec::opt_text_of(j, "id"),
        codec::opt_text_of(j, "fileName"),
        read_provider(j),
    ) {
        (Some(kind), Ok(text), Ok(id), Ok(file_name), Ok(content_provider)) => Some(
            EventMessage { kind, text, id, file_name, content_provider },
        ),
        _ => None,
    }
}

fn read_user(j: &Json) -> (r: Result<Option<String>, ()>)
    ensures
        match r {
            Ok(u) => user_from(j@) == Ok::<Option<Seq<char>>, ()>(text::opt_text(u)),
            Err(_) => user_from(j@) is Err,
        },
{
    match j.get("source") {
        None => Err(()),
        Some(s) => {
            let names: Vec<&str> = vec!["userId"];
            assert(json::strs(names@) =~= seq!["userId"@]);
            let s: &Json = &s.as_struct(&names, 1);
            match s {
                Json::Object(_) => codec::opt_text_of(s, "userId"),
                _ => Err(()),
            }
        },
    }
}

fn read_body(j: &Json) -> (r: Result<Option<EventMessage>, ()>)
    ensures
        match r {
            Ok(Some(m)) => body_from(j@) == Ok::<Option<LineMessageView>, ()>(Some(m@)),
            Ok(None) => body_from(j@) == Ok::<Option<LineMessageView>, ()>(None),
            Err(_) => body_from(j@) is Err,
        },
{
    match j.get("message") {
        None => Ok(None),
        Some(m) => match m {
            Json::Null => Ok(None),
            _ => match read_line_message(m) {
                Some(m) => Ok(Some(m)),
                None => Err(()),
            },
        },
    }
}

fn read_envelope(j: &Json) -> (r: Option<EventEnvelope>)
    ensures
        match r {
            Some(e) => envelope_from(j@) == Some(e@),
            None => envelope_from(j@) is None,
        },
{
    let names: Vec<&str> = vec!["timestamp", "source", "message"];
    assert(json::strs(names@) =~= envelope_fields());
    let j: &Json = &j.as_struct(&names, 3);
    let timestamp: i64 = match j.get("timestamp") {
        None => 0,
        Some(v) => match v.as_integer() {
            Some(t) => t,
            None => {
                return None;
            },
        },
    };
    match (read_user(j), codec::opt_text_of(j, "replyToken"), read_body(j)) {
        (Ok(user_id), Ok(reply_token), Ok(message)) => Some(
            EventEnvelope { timestamp, user_id, reply_token, message },
        ),
        _ => None,
    }
}

proof fn lemma_envelopes_fail(a: Seq<json::JsonView>, i: int)
    requires
        0 <= i < a.len(),
        envelope_from(a[i]) is None,
    ensures
        envelopes_from(a) is None,
    decreases a.len(),
{
    if i < a.len() - 1 {
        lemma_envelopes_fail(a.drop_last(), i);
    }
}

fn read_envelopes(v: &Vec<Json>) -> (r: Option<Vec<EventEnvelope>>)
    ensures
        match r {
            Some(e) => envelopes_from(json::json_views(v@)) == Some(envelope_views(e@)),
            None => envelopes_from(json::json_views(v@)) is None,
        },
{
    let ghost a = json::json_views(v@);
    let mut out: Vec<EventEnvelope> = Vec::new();
    proof {
        json::lemma_json_views(v@);
        assert(a.take(0) =~= Seq::<json::JsonView>::empty());
        assert(envelope_views(out@) =~= Seq::<EnvelopeView>::empty());
    }
    let mut i: usize = 0;
    while i < v.len()
        invariant
            i <= v@.len() == a.len(),
            a == json::json_views(v@),
            forall|j: int| 0 <= j < v@.len() ==> #[trigger] a[j] == json::json_view(v@[j]),
            envelopes_from(a.take(i as int)) == Some(envelope_views(out@)),
        decreases v@.len() - i,
    {
        assert(a[i as int] == v@[i as int]@);
        match read_envelope(&v[i]) {
            None => {
                proof {
                    lemma_envelopes_fail(a, i as int);
                }
                return None;
            },
            Some(e) => {
                let ghost before = out@;
                let ghost seen = e@;
                out.push(e);
                proof {
                    assert(a.take(i + 1).drop_last() =~= a.take(i as int));
                    assert(a.take(i + 1).last() == a[i as int]);
                    assert(envelope_views(out@) =~= envelope_views(before).push(seen));
                }
            },
        }
        i = i + 1;
    }
    assert(a.take(i as int) =~= a);
    Some(out)
}

/// The webhook body that a value stands for.
pub fn read_webhook(j: &Json) -> (r: Option<WebhookPayload>)
    ensures
        match r {
            Some(p) => webhook_from(j@) == Some(envelope_views(p.events@)),
            None => webhook_from(j@) is None,
        },
{
    let names: Vec<&str> = vec!["events"];
    assert(json::strs(names@) =~= seq!["events"@]);
    let j: &Json = &j.as_struct(&names, 1);
    match j.get("events") {
        None => None,
        Some(v) => match v {
            Json::Array(a) => match read_envelopes(a) {
                Some(events) => Some(WebhookPayload { events }),
                None => None,
            },
            _ => None,
        },
    }
}

/// A message that is to be taken up.
#[derive(Debug, PartialEq, Eq)]
pub struct Inbound {
    pub user: String,
    pub message: EventMessage,
    pub reply_token: Option<String>,
    pub timestamp: i64,
}

pub struct InboundView {
    pub user: Seq<char>,
    pub message: LineMessageView,
    pub reply_token: Option<Seq<char>>,
    pub timestamp: i64,
}

impl View for Inbound {
    type V = InboundView;

    open spec fn view(&self) -> InboundView {
        InboundView {
            user: self.user@,
            message: self.message@,
            reply_token: text::opt_text(self.reply_token),
            timestamp: self.timestamp,
        }
    }
}

pub open spec fn inbound_views(v: Seq<Inbound>) -> Seq<InboundView> {
    Seq::new(v.len(), |i: int| v[i]@)
}

/// Whether a user is served.
pub open spec fn allowed(allowlist: Seq<Seq<char>>, user: Seq<char>) -> bool {
    allowlist.len() == 0 || allowlist.contains(user)
}

/// What is taken up of an event: a message of a user who is served, unless it
/// is from before the start.
pub open spec fn screened(e: EnvelopeView, boot_ms: i64, allowlist: Seq<Seq<char>>) -> Seq<
    InboundView,
> {
    match (e.user_id, e.message) {
        (Some(user), Some(message)) => if e.timestamp < boot_ms || !allowed(allowlist, user) {
            Seq::empty()
        } else {
            seq![
                InboundView {
                    user,
                    message,
                    reply_token: e.reply_token,
                    timestamp: e.timestamp,
                },
            ]
        },
        _ => Seq::empty(),
    }
}

/// What is taken up of a list of events, in order.
pub open spec fn all_screened(
    v: Seq<EnvelopeView>,
    boot_ms: i64,
    allowlist: Seq<Seq<char>>,
) -> Seq<InboundView>
    decreases v.len(),
{
    if v.len() == 0 {
        Seq::empty()
    } else {
        all_screened(v.drop_last(), boot_ms, allowlist) + screened(v.last(), boot_ms, allowlist)
    }
}

fn is_allowed(allowlist: &Vec<String>, user: &str) -> (r: bool)
    ensures
        r == allowed(text::texts(allowlist@), user@),
{
    if allowlist.len() == 0 {
        return true;
    }
    let mut i: usize = 0;
    while i < allowlist.len()
        invariant
            i <= allowlist@.len(),
            forall|j: int| 0 <= j < i ==> (#[trigger] allowlist@[j])@ != user@,
        decreases allowlist@.len() - i,
    {
        if text::same(allowlist[i].as_str(), user) {
            assert(text::texts(allowlist@)[i as int] == user@);
            return true;
        }
        i = i + 1;
    }
    assert(!text::texts(allowlist@).contains(user@));
    false
}

fn screen(e: &EventEnvelope, boot_ms: i64, allowlist: &Vec<String>) -> (r: Option<Inbound>)
    ensures
        match r {
            Some(m) => screened(e@, boot_ms, text::texts(allowlist@)) == seq![m@],
            None => screened(e@, boot_ms, text::texts(allowlist@)) == Seq::<InboundView>::empty(),
        },
{
    if e.timestamp < boot_ms {
        return None;
    }
    match (&e.user_id, &e.message) {
        (Some(user), Some(message)) => {
            if !is_allowed(allowlist, user.as_str()) {
                return None;
            }
            Some(
                Inbound {
                    user: user.clone(),
                    message: message.clone(),
                    reply_token: types::copy_opt(&e.reply_token),
                    timestamp: e.timestamp,
                },
            )
        },
        _ => None,
    }
}

/// What is taken up of a webhook body.
pub fn take_up(p: &WebhookPayload, boot_ms: i64, allowlist: &Vec<String>) -> (r: Vec<Inbound>)
    ensures
        inbound_views(r@) == all_screened(
            envelope_views(p.events@),
            boot_ms,
            text::texts(allowlist@),
        ),
{
    let ghost all = envelope_views(p.events@);
    let ghost list = text::texts(allowlist@);
    let mut out: Vec<Inbound> = Vec::new();
    assert(inbound_views(out@) =~= all_screened(all.take(0), boot_ms, list));
    let mut i: usize = 0;
    while i < p.events.len()
        invariant
            i <= p.events@.len(),
            all == envelope_views(p.events@),
            list == text::texts(allowlist@),
            inbound_views(out@) == all_screened(all.take(i as int), boot_ms, list),
        decreases p.events@.len() - i,
    {
        let ghost before = inbound_views(out@);
        match screen(&p.events[i], boot_ms, allowlist) {
            Some(m) => {
                let ghost added = m@;
                out.push(m);
                assert(inbound_views(out@) =~= before + seq![added]);
            },
            None => {
                assert(inbound_views(out@) =~= before + Seq::<InboundView>::empty());
            },
        }
        proof {
            assert(all[i as int] == p.events@[i as int]@);
            assert(all.take(i + 1).drop_last() =~= all.take(i as int));
            assert(all.take(i + 1).last() == all[i as int]);
        }
        i = i + 1;
    }
    assert(all.take(i as int) =~= all);
    out
}

/// How a webhook call is answered.
#[derive(Debug, PartialEq, Eq)]
pub enum Webhook {
    /// 401: the signature does not fit the body.
    Unauthorized,
    /// 400: the body is no webhook body.
    BadRequest,
    /// 200, with what is to be taken up.
    Accepted(Vec<Inbound>),
}

/// What a signed body holds: the signature is checked on its bytes before they
/// are read.
pub open spec fn webhook_answer(
    signed: bool,
    body: Option<json::JsonView>,
    boot_ms: i64,
    allowlist: Seq<Seq<char>>,
) -> Result<Seq<InboundView>, u16> {
    if !signed {
        Err(401)
    } else {
        match body {
            None => Err(400),
            Some(j) => match webhook_from(j) {
                None => Err(400),
                Some(v) => Ok(all_screened(v, boot_ms, allowlist)),
            },
        }
    }
}

impl Webhook {
    /// The status, or what is to be taken up.
    pub open spec fn answer(&self) -> Result<Seq<InboundView>, u16> {
        match self {
            Webhook::Unauthorized => Err(401),
            Webhook::BadRequest => Err(400),
            Webhook::Accepted(v) => Ok(inbound_views(v@)),
        }
    }
}

impl LinePlatform {
    pub fn new(cfg: LineConfig, boot_ms: i64) -> (r: LinePlatform)
        ensures
            r.cfg == cfg,
            r.boot_ms == boot_ms,
            r.push_count == 0,
    {
        LinePlatform { cfg, boot_ms, push_count: 0 }
    }

    pub fn name(&self) -> (r: &'static str)
        ensures
            r@ == "line"@,
    {
        "line"
    }

    /// Answers a webhook call whose body was read.
    pub fn answer(&self, signed: bool, body: Option<Json>) -> (r: Webhook)
        ensures
            r.answer() == webhook_answer(
                signed,
                match body {
                    Some(j) => Some(j@),
                    None => None,
                },
                self.boot_ms,
                text::texts(self.cfg.allowlist@),
            ),
    {
        if !signed {
            return Webhook::Unauthorized;
        }
        match body {
            None => Webhook::BadRequest,
            Some(j) => match read_webhook(&j) {
                None => Webhook::BadRequest,
                Some(p) => Webhook::Accepted(take_up(&p, self.boot_ms, &self.cfg.allowlist)),
            },
        }
    }

    /// Answers a webhook call: its body, and the signature in its header.
    pub fn handle_webhook(&self, body: &[u8], signature: &str) -> (r: Webhook)
        ensures
            r.answer() == webhook_answer(
                sign::signs(self.cfg.channel_secret@, body@, signature@),
                json::parsed_bytes(body@),
                self.boot_ms,
                text::texts(self.cfg.allowlist@),
            ),
    {
        if !sign::verify_signature(self.cfg.channel_secret.as_str(), body, signature) {
            return Webhook::Unauthorized;
        }
        self.answer(true, json::parse_bytes(body))
    }
}

/// A body whose signature does not fit is never acted on.
pub proof fn unsigned_calls_are_refused(
    body: Option<json::JsonView>,
    boot_ms: i64,
    allowlist: Seq<Seq<char>>,
)
    ensures
        webhook_answer(false, body, boot_ms, allowlist) == Err::<Seq<InboundView>, u16>(401),
{
}

/// Whatever is taken up is no older than the start of the bridge, and from a
/// user who is served.
pub proof fn only_fresh_messages_of_served_users(
    v: Seq<EnvelopeView>,
    boot_ms: i64,
    allowlist: Seq<Seq<char>>,
    i: int,
)
    requires
        0 <= i < all_screened(v, boot_ms, allowlist).len(),
    ensures
        all_screened(v, boot_ms, allowlist)[i].timestamp >= boot_ms,
        allowed(allowlist, all_screened(v, boot_ms, allowlist)[i].user),
    decreases v.len(),
{
    if v.len() > 0 {
        let front = all_screened(v.drop_last(), boot_ms, allowlist);
        if i < front.len() {
            only_fresh_messages_of_served_users(v.drop_last(), boot_ms, allowlist, i);
        } else {
            assert(screened(v.last(), boot_ms, allowlist)[i - front.len()]
                == all_screened(v, boot_ms, allowlist)[i]);
        }
    }
}

// ── Inbound messages ────────────────────────────────────────────────────

/// What a message holds.
#[derive(Debug, PartialEq, Eq)]
pub enum Content {
    /// Its words, or words that stand for it.
    Text(String),
    /// A file that is fetched from the service.
    Fetch { id: String, kind: AttachmentKind, file_name: Option<String> },
    /// Nothing that is handled: stickers, locations.
    Nothing,
}

pub enum ContentView {
    Text(Seq<char>),
    Fetch { id: Seq<char>, kind: AttachmentKind, file_name: Option<Seq<char>> },
    Nothing,
}

impl View for Content {
    type V = ContentView;

    open spec fn view(&self) -> ContentView {
        match self {
            Content::Text(t) => ContentView::Text(t@),
            Content::Fetch { id, kind, file_name } => ContentView::Fetch {
                id: id@,
                kind: *kind,
                file_name: text::opt_text(*file_name),
            },
            Content::Nothing => ContentView::Nothing,
        }
    }
}

pub open spec fn is_media(kind: Seq<char>) -> bool {
    kind == "image"@ || kind == "file"@ || kind == "audio"@ || kind == "video"@
}

/// The kind of attachment that a kind of message is.
pub open spec fn media_kind(kind: Seq<char>) -> AttachmentKind {
    if kind == "image"@ {
        AttachmentKind::Image
    } else if kind == "audio"@ {
        AttachmentKind::Audio
    } else {
        AttachmentKind::File
    }
}

/// Where the content of a message is kept: by the service itself, if nothing
/// else is said.
pub open spec fn kept_by(m: LineMessageView) -> Seq<char> {
    match m.provider {
        Some(p) => p.kind,
        None => "line"@,
    }
}

/// What a message holds. A file that is kept elsewhere is mentioned by its
/// address, so that the agent can fetch it.
pub open spec fn content_of(m: LineMessageView) -> ContentView {
    if m.kind == "text"@ {
        ContentView::Text(
            match m.text {
                Some(t) => t,
                None => Seq::empty(),
            },
        )
    } else if !is_media(m.kind) {
        ContentView::Nothing
    } else if kept_by(m) != "line"@ {
        let url = match m.provider {
            Some(ProviderView { kind, url: Some(u) }) => u,
            _ => Seq::empty(),
        };
        ContentView::Text("[external "@ + m.kind + " attachment: "@ + url + "]"@)
    } else {
        match m.id {
            None => ContentView::Nothing,
            Some(id) => ContentView::Fetch {
                id,
                kind: media_kind(m.kind),
                file_name: m.file_name,
            },
        }
    }
}

fn text_or_nothing(t: &Option<String>) -> (r: String)
    ensures
        r@ == match text::opt_text(*t) {
            Some(t) => t,
            None => Seq::empty(),
        },
{
    match t {
        Some(t) => t.clone(),
        None => {
            let empty: String = String::new();
            assert(empty@ =~= Seq::<char>::empty());
            empty
        },
    }
}

/// What a message holds.
pub fn content(m: &EventMessage) -> (r: Content)
    ensures
        r@ == content_of(m@),
{
    let kind: &str = m.kind.as_str();
    if text::same(kind, "text") {
        return Content::Text(text_or_nothing(&m.text));
    }
    let image: bool = text::same(kind, "image");
    let audio: bool = text::same(kind, "audio");
    if !(image || audio || text::same(kind, "file") || text::same(kind, "video")) {
        return Content::Nothing;
    }
    let elsewhere: bool = match &m.content_provider {
        Some(p) => !text::same(p.kind.as_str(), "line"),
        None => false,
    };
    if elsewhere {
        let url: String = match &m.content_provider {
            Some(p) => text_or_nothing(&p.original_content_url),
            None => text_or_nothing(&None),
        };
        let head: String = text::concat3("[external ", kind, " attachment: ");
        return Content::Text(text::concat3(head.as_str(), url.as_str(), "]"));
    }
    match &m.id {
        None => Content::Nothing,
        Some(id) => Content::Fetch {
            id: id.clone(),
            kind: if image {
                AttachmentKind::Image
            } else if audio {
                AttachmentKind::Audio
            } else {
                AttachmentKind::File
            },
            file_name: types::copy_opt(&m.file_name),
        },
    }
}

/// The address of a file that the service keeps.
pub fn content_url(id: &str) -> (r: String)
    ensures
        r@ == "https://api-data.line.me/v2/bot/message/"@ + id@ + "/content"@,
{
    text::concat3("https://api-data.line.me/v2/bot/message/", id, "/content")
}

/// The media type in a header: what stands before the first `;`.
pub open spec fn media_type(header: Option<Seq<char>>) -> Seq<char> {
    let h = match header {
        Some(h) => h,
        None => "application/octet-stream"@,
    };
    text::trim(text::split(h, ';')[0])
}

/// The media type in a `content-type` header.
pub fn content_type(header: Option<&str>) -> (r: String)
    ensures
        r@ == media_type(
            match header {
                Some(h) => Some(h@),
                None => None,
            },
        ),
{
    let h: &str = match header {
        Some(h) => h,
        None => "application/octet-stream",
    };
    match text::cut_at_char(h, ';') {
        Some((a, _)) => {
            proof {
                text::lemma_split_first(h@, ';', a@.len() as int);
            }
            text::trimmed(a.as_str())
        },
        None => {
            proof {
                text::lemma_split_first(h@, ';', h@.len() as int);
                assert(h@.take(h@.len() as int) =~= h@);
            }
            text::trimmed(h)
        },
    }
}

/// The extension of a media type, empty where it is not known.
pub open spec fn extension_of(mime: Seq<char>) -> Seq<char> {
    if mime == "image/jpeg"@ {
        ".jpg"@
    } else if mime == "image/png"@ {
        ".png"@
    } else if mime == "image/gif"@ {
        ".gif"@
    } else if mime == "image/webp"@ {
        ".webp"@
    } else if mime == "audio/mp4"@ || mime == "audio/m4a"@ {
        ".m4a"@
    } else if mime == "audio/mpeg"@ {
        ".mp3"@
    } else if mime == "video/mp4"@ {
        ".mp4"@
    } else {
        ""@
    }
}

/// The extension of a media type, empty where it is not known.
pub fn ext_from_mime(mime: &str) -> (r: &'static str)
    ensures
        r@ == extension_of(mime@),
{
    if text::same(mime, "image/jpeg") {
        ".jpg"
    } else if text::same(mime, "image/png") {
        ".png"
    } else if text::same(mime, "image/gif") {
        ".gif"
    } else if text::same(mime, "image/webp") {
        ".webp"
    } else if text::same(mime, "audio/mp4") || text::same(mime, "audio/m4a") {
        ".m4a"
    } else if text::same(mime, "audio/mpeg") {
        ".mp3"
    } else if text::same(mime, "video/mp4") {
        ".mp4"
    } else {
        ""
    }
}

/// The name that a fetched file is stored under. The given one is the sender's
/// choice, and made safe.
pub open spec fn stored_name(file_name: Option<Seq<char>>, id: Seq<char>, mime: Seq<char>) -> Seq<
    char,
> {
    types::safe_name(
        match file_name {
            Some(n) => n,
            None => id + extension_of(mime),
        },
    )
}

/// The name that a fetched file is stored under.
pub fn download_name(file_name: &Option<String>, id: &str, mime: &str) -> (r: String)
    ensures
        r@ == stored_name(text::opt_text(*file_name), id@, mime@),
{
    match file_name {
        Some(n) => types::safe_filename(n.as_str()),
        None => types::safe_filename(text::concat2(id, ext_from_mime(mime)).as_str()),
    }
}

/// The extras that a reply needs: the token, and when it came.
pub open spec fn token_extra(token: Option<Seq<char>>, received_ms: i64) -> json::JsonView {
    match token {
        None => json::JsonView::Null,
        Some(t) => json::JsonView::Object(
            seq![
                ("reply_token"@, json::JsonView::Str(t)),
                ("reply_token_ms"@, json::int_json(received_ms as int)),
            ],
        ),
    }
}

/// The message for the engine; none where there is nothing to say.
pub open spec fn message_of(
    m: InboundView,
    said: Seq<char>,
    attachments: Seq<Attachment>,
    received_ms: i64,
) -> Option<types::MessageView> {
    if said.len() == 0 && attachments.len() == 0 {
        None
    } else {
        Some(
            types::MessageView {
                key: types::session_key("line"@, m.user),
                text: said,
                attachments,
                reply_ctx: types::ReplyCtxView {
                    channel: None,
                    thread: None,
                    user: Some(m.user),
                    extra: token_extra(m.reply_token, received_ms),
                },
                timestamp_ms: m.timestamp,
            },
        )
    }
}

/// The message for the engine, with what was fetched. `received_ms` is when the
/// webhook call came in.
pub fn to_message(
    m: &Inbound,
    said: String,
    attachments: Vec<Attachment>,
    received_ms: i64,
) -> (r: Option<Message>)
    ensures
        match r {
            Some(msg) => message_of(m@, said@, attachments@, received_ms) == Some(msg@),
            None => message_of(m@, said@, attachments@, received_ms) is None,
        },
{
    if said.as_str().unicode_len() == 0 && attachments.len() == 0 {
        return None;
    }
    let extra: Json = match &m.reply_token {
        None => Json::Null,
        Some(t) => {
            let e: Members = Members::new().with_str("reply_token", t.as_str()).with(
                "reply_token_ms",
                json::number_json(received_ms),
            );
            assert(e@ =~= token_extra(Some(t@), received_ms)->Object_0);
            e.object()
        },
    };
    Some(
        Message {
            key: SessionKey::new("line", m.user.as_str()),
            text: said,
            attachments,
            reply_ctx: ReplyCtx {
                channel: None,
                thread: None,
                user: Some(m.user.clone()),
                extra,
            },
            timestamp_ms: m.timestamp,
        },
    )
}

// ── Replies ─────────────────────────────────────────────────────────────

/// The reply token in the extras, while it may still be used.
pub open spec fn usable_token(extra: json::JsonView, now_ms: i64) -> Option<Seq<char>> {
    match (extra.get_text("reply_token"@), codec::integer_at(extra, "reply_token_ms"@)) {
        (Some(token), Some(at)) => if token.len() == 0 || now_ms - at > REPLY_TOKEN_TTL_MS {
            None
        } else {
            Some(token)
        },
        _ => None,
    }
}

/// The reply token in the extras, while it may still be used.
pub fn extract_reply_token(extra: &Json, now_ms: i64) -> (r: Option<String>)
    ensures
        text::opt_text(r) == usable_token(extra@, now_ms),
{
    let token: String = match extra.get_text("reply_token") {
        Some(t) => t,
        None => {
            return None;
        },
    };
    if token.as_str().unicode_len() == 0 {
        return None;
    }
    let at: i64 = match extra.get("reply_token_ms") {
        None => {
            return None;
        },
        Some(v) => match v.as_integer() {
            Some(t) => t,
            None => {
                return None;
            },
        },
    };
    let elapsed: i128 = now_ms as i128 - at as i128;
    if elapsed > REPLY_TOKEN_TTL_MS as i128 {
        return None;
    }
    Some(token)
}

/// A reply that is ready within the lifetime of its token is free: the token of
/// the message can be used, and later it cannot.
pub proof fn token_is_usable_in_time(
    m: InboundView,
    token: Seq<char>,
    said: Seq<char>,
    attachments: Seq<Attachment>,
    received_ms: i64,
    now_ms: i64,
)
    requires
        m.reply_token == Some(token),
        token.len() > 0,
        said.len() > 0 || attachments.len() > 0,
    ensures
        ({
            let extra = message_of(m, said, attachments, received_ms)->Some_0.reply_ctx.extra;
            usable_token(extra, now_ms) == (if now_ms - received_ms <= 25_000 {
                Some(token)
            } else {
                None
            })
        }),
{
    let extra = token_extra(Some(token), received_ms);
    let o = extra->Object_0;
    reveal_strlit("reply_token");
    reveal_strlit("reply_token_ms");
    assert("reply_token"@.len() != "reply_token_ms"@.len());
    assert(o.drop_first()[0] == o[1]);
    reveal_with_fuel(json::member, 3);
    text::integer_reads_back(received_ms as int);
}

/// Whom a reply goes to.
pub fn recipient(ctx: &ReplyCtx) -> (r: Result<String, String>)
    ensures
        match (r, text::opt_text(ctx.user)) {
            (Ok(to), Some(user)) => to@ == user,
            (Err(e), None) => e@ == "LINE reply requires user id in ReplyCtx"@,
            _ => false,
        },
{
    match &ctx.user {
        Some(user) => Ok(user.clone()),
        None => Err("LINE reply requires user id in ReplyCtx".to_string()),
    }
}

/// A text message.
pub open spec fn text_json(chunk: Seq<char>) -> json::JsonView {
    json::JsonView::Object(
        seq![("type"@, json::JsonView::Str("text"@)), ("text"@, json::JsonView::Str(chunk))],
    )
}

fn make_text(chunk: &str) -> (r: Json)
    ensures
        r@ == text_json(chunk@),
{
    let m: Members = Members::new().with_str("type", "text").with_str("text", chunk);
    assert(m@ =~= text_json(chunk@)->Object_0);
    m.object()
}

/// The messages of a text, one for each chunk.
pub open spec fn text_messages(t: Seq<char>) -> Seq<json::JsonView> {
    let chunks = split::chunks(split::pieces(t, LINE_TEXT_MAX as int));
    Seq::new(chunks.len(), |i: int| text_json(chunks[i]))
}

/// The calls that a list of messages takes: five in each, what is left in the
/// last.
pub open spec fn batches(v: Seq<json::JsonView>) -> Seq<Seq<json::JsonView>>
    decreases v.len(),
{
    if v.len() == 0 {
        Seq::empty()
    } else if v.len() <= LINE_MESSAGES_PER_CALL {
        seq![v]
    } else {
        seq![v.take(LINE_MESSAGES_PER_CALL as int)] + batches(v.skip(LINE_MESSAGES_PER_CALL as int))
    }
}

/// The messages of all calls.
pub open spec fn flat(v: Seq<Seq<json::JsonView>>) -> Seq<json::JsonView>
    decreases v.len(),
{
    if v.len() == 0 {
        Seq::empty()
    } else {
        v[0] + flat(v.drop_first())
    }
}

/// The calls carry all the messages in order, none of them too many.
pub proof fn batches_carry_everything(v: Seq<json::JsonView>)
    ensures
        flat(batches(v)) == v,
        forall|i: int| 0 <= i < batches(v).len() ==> 0 < (#[trigger] batches(v)[i]).len() <= 5,
    decreases v.len(),
{
    let none = Seq::<Seq<json::JsonView>>::empty();
    assert(flat(none) =~= Seq::<json::JsonView>::empty());
    if v.len() == 0 {
        assert(v =~= flat(none));
    } else if v.len() <= LINE_MESSAGES_PER_CALL {
        assert(seq![v].drop_first() =~= none);
        assert(v + flat(none) =~= v);
    } else {
        let rest = v.skip(5);
        batches_carry_everything(rest);
        let b = batches(v);
        assert(b.drop_first() =~= batches(rest));
        assert(v.take(5) + rest =~= v);
        assert forall|i: int| 0 <= i < b.len() implies 0 < (#[trigger] b[i]).len() <= 5 by {
            if i > 0 {
                assert(b[i] == batches(rest)[i - 1]);
            }
        }
    }
}

pub open spec fn batch_views(v: Seq<Vec<Json>>) -> Seq<Seq<json::JsonView>> {
    Seq::new(v.len(), |i: int| json::json_views(v[i]@))
}

/// The calls that a text takes: the messages of each.
pub fn reply_batches(t: &str) -> (r: Vec<Vec<Json>>)
    ensures
        batch_views(r@) == batches(text_messages(t@)),
{
    let chunks: Vec<String> = split::split_text(t, LINE_TEXT_MAX);
    let ghost all = text_messages(t@);
    proof {
        assert(text::texts(chunks@).len() == chunks@.len());
        assert forall|k: int| 0 <= k < chunks@.len() implies all[k] == text_json(chunks@[k]@) by {
            assert(text::texts(chunks@)[k] == chunks@[k]@);
        }
    }
    let n: usize = chunks.len();
    let mut out: Vec<Vec<Json>> = Vec::new();
    let mut i: usize = 0;
    assert(all.skip(0) =~= all);
    assert(batch_views(out@) + batches(all) =~= batches(all));
    while i < n
        invariant
            i <= n == chunks@.len() == all.len(),
            forall|k: int| 0 <= k < chunks@.len() ==> all[k] == text_json((#[trigger] chunks@[k])@),
            batch_views(out@) + batches(all.skip(i as int)) == batches(all),
        decreases n - i,
    {
        let end: usize = if n - i > LINE_MESSAGES_PER_CALL {
            i + LINE_MESSAGES_PER_CALL
        } else {
            n
        };
        let mut batch: Vec<Json> = Vec::new();
        let mut k: usize = i;
        while k < end
            invariant
                i <= k <= end <= n == chunks@.len() == all.len(),
                batch@.len() == k - i,
                forall|a: int|
                    0 <= a < chunks@.len() ==> all[a] == text_json((#[trigger] chunks@[a])@),
                forall|a: int| 0 <= a < k - i ==> (#[trigger] batch@[a])@ == all[i + a],
            decreases end - k,
        {
            batch.push(make_text(chunks[k].as_str()));
            k = k + 1;
        }
        proof {
            json::lemma_json_views(batch@);
            let rest = all.skip(i as int);
            assert(json::json_views(batch@) =~= rest.take(end - i));
            assert(rest.skip(end - i) =~= all.skip(end as int));
            if rest.len() <= LINE_MESSAGES_PER_CALL {
                assert(rest.take(end - i) =~= rest);
                assert(batches(rest) =~= seq![rest]);
                assert(batches(all.skip(end as int)) =~= Seq::<Seq<json::JsonView>>::empty());
            }
            assert(batches(rest) =~= seq![rest.take(end - i)] + batches(all.skip(end as int)));
        }
        let ghost before = out@;
        let ghost added = json::json_views(batch@);
        out.push(batch);
        proof {
            assert(batch_views(out@) =~= batch_views(before).push(added));
            assert(batch_views(out@) + batches(all.skip(end as int)) =~= batch_views(before)
                + batches(all.skip(i as int)));
        }
        i = end;
    }
    assert(batches(all.skip(i as int)) =~= Seq::<Seq<json::JsonView>>::empty());
    assert(batch_views(out@) =~= batches(all));
    out
}

/// The body of a reply with a token.
pub open spec fn reply_json(token: Seq<char>, messages: Seq<json::JsonView>) -> json::JsonView {
    json::JsonView::Object(
        seq![
            ("replyToken"@, json::JsonView::Str(token)),
            ("messages"@, json::JsonView::Array(messages)),
        ],
    )
}

/// The body of a reply with a token.
pub fn reply_body(token: &str, messages: &Vec<Json>) -> (r: Json)
    ensures
        r@ == reply_json(token@, json::json_views(messages@)),
{
    let m: Members = Members::new().with_str("replyToken", token).with(
        "messages",
        json::array_json(json::copy_values(messages)),
    );
    assert(m@ =~= reply_json(token@, json::json_views(messages@))->Object_0);
    m.object()
}

/// The body of a push message.
pub open spec fn push_json(to: Seq<char>, messages: Seq<json::JsonView>) -> json::JsonView {
    json::JsonView::Object(
        seq![
            ("to"@, json::JsonView::Str(to)),
            ("messages"@, json::JsonView::Array(messages)),
        ],
    )
}

/// The body of a push message.
pub fn push_body(to: &str, messages: &Vec<Json>) -> (r: Json)
    ensures
        r@ == push_json(to@, json::json_views(messages@)),
{
    let m: Members = Members::new().with_str("to", to).with(
        "messages",
        json::array_json(json::copy_values(messages)),
    );
    assert(m@ =~= push_json(to@, json::json_views(messages@))->Object_0);
    m.object()
}

/// How a call is made: with the token first, if there is one.
#[derive(Debug, PartialEq, Eq)]
pub enum Delivery {
    /// A free reply; where it fails, a push message follows.
    Reply(Json),
    Push(Json),
    /// The quota is used up.
    Exhausted(String),
}

pub enum DeliveryView {
    Reply(json::JsonView),
    Push(json::JsonView),
    Exhausted(Seq<char>),
}

impl View for Delivery {
    type V = DeliveryView;

    open spec fn view(&self) -> DeliveryView {
        match self {
            Delivery::Reply(j) => DeliveryView::Reply(j@),
            Delivery::Push(j) => DeliveryView::Push(j@),
            Delivery::Exhausted(e) => DeliveryView::Exhausted(e@),
        }
    }
}

/// What is said when the quota is used up.
pub open spec fn exhausted_text(count: u64, limit: u64) -> Seq<char> {
    "LINE push message quota exhausted ("@ + text::decimal(count as nat) + "/"@ + text::decimal(
        limit as nat,
    ) + "). Wait for monthly reset."@
}

/// A push message, unless the quota is used up.
pub open spec fn pushed(
    count: u64,
    limit: Option<u64>,
    to: Seq<char>,
    messages: Seq<json::JsonView>,
) -> DeliveryView {
    match limit {
        Some(l) => if count >= l {
            DeliveryView::Exhausted(exhausted_text(count, l))
        } else {
            DeliveryView::Push(push_json(to, messages))
        },
        None => DeliveryView::Push(push_json(to, messages)),
    }
}

impl LinePlatform {
    /// A push message, unless the quota is used up.
    pub fn push(&self, to: &str, messages: &Vec<Json>) -> (r: Delivery)
        ensures
            r@ == pushed(
                self.push_count,
                self.cfg.push_limit,
                to@,
                json::json_views(messages@),
            ),
    {
        match self.cfg.push_limit {
            Some(limit) => {
                if self.push_count >= limit {
                    let head: String = text::concat3(
                        "LINE push message quota exhausted (",
                        text::decimal_text(self.push_count).as_str(),
                        "/",
                    );
                    return Delivery::Exhausted(
                        text::concat3(
                            head.as_str(),
                            text::decimal_text(limit).as_str(),
                            "). Wait for monthly reset.",
                        ),
                    );
                }
            },
            None => {},
        }
        Delivery::Push(push_body(to, messages))
    }

    /// The first try of a call: the token of the context, while it may be used.
    pub fn deliver(&self, ctx: &ReplyCtx, to: &str, messages: &Vec<Json>, now_ms: i64) -> (r:
        Delivery)
        ensures
            r@ == match usable_token(ctx.extra@, now_ms) {
                Some(token) => DeliveryView::Reply(
                    reply_json(token, json::json_views(messages@)),
                ),
                None => pushed(
                    self.push_count,
                    self.cfg.push_limit,
                    to@,
                    json::json_views(messages@),
                ),
            },
    {
        match extract_reply_token(&ctx.extra, now_ms) {
            Some(token) => Delivery::Reply(reply_body(token.as_str(), messages)),
            None => self.push(to, messages),
        }
    }

    /// Counts a push message that went out. Replies are not counted.
    pub fn count_push(&mut self)
        ensures
            final(self).cfg == old(self).cfg,
            final(self).boot_ms == old(self).boot_ms,
            final(self).push_count == (if old(self).push_count == u64::MAX {
                u64::MAX
            } else {
                (old(self).push_count + 1) as u64
            }),
    {
        if self.push_count < u64::MAX {
            self.push_count = self.push_count + 1;
        }
    }

    /// A call is over: what to do next, if anything. A reply that failed is
    /// pushed instead; a push message that went out is counted, and one that
    /// failed is given up.
    pub fn after_call(
        &mut self,
        was_reply: bool,
        error: Option<String>,
        to: &str,
        messages: &Vec<Json>,
    ) -> (r: Result<Option<Delivery>, String>)
        ensures
            final(self).cfg == old(self).cfg,
            final(self).boot_ms == old(self).boot_ms,
            final(self).push_count == (if was_reply || error is Some || old(self).push_count
                == u64::MAX {
                old(self).push_count
            } else {
                (old(self).push_count + 1) as u64
            }),
            match error {
                None => r matches Ok(None),
                Some(e) => if was_reply {
                    r matches Ok(Some(d)) && d@ == pushed(
                        old(self).push_count,
                        old(self).cfg.push_limit,
                        to@,
                        json::json_views(messages@),
                    )
                } else {
                    r matches Err(t) && t@ == e@
                },
            },
    {
        match error {
            None => {
                if !was_reply {
                    self.count_push();
                }
                Ok(None)
            },
            Some(e) => if was_reply {
                Ok(Some(self.push(to, messages)))
            } else {
                Err(e)
            },
        }
    }

    /// Whether nine tenths of the quota are used.
    pub fn near_limit(&self) -> (r: bool)
        ensures
            r == (self.cfg.push_limit matches Some(l) && self.push_count >= l * 9 / 10),
    {
        match self.cfg.push_limit {
            Some(l) => self.push_count as u128 >= l as u128 * 9 / 10,
            None => false,
        }
    }
}

/// The quota is never overdrawn: a push message goes out only while the count
/// is below the limit.
pub proof fn quota_is_kept(
    count: u64,
    limit: u64,
    to: Seq<char>,
    messages: Seq<json::JsonView>,
)
    requires
        pushed(count, Some(limit), to, messages) is Push,
    ensures
        count + 1 <= limit,
{
}

/// The message of an attachment, published under an address. Files that are
/// neither images nor sounds are mentioned by name and address.
pub open spec fn attachment_json(
    kind: AttachmentKind,
    name: Option<Seq<char>>,
    url: Seq<char>,
) -> json::JsonView {
    match kind {
        AttachmentKind::Image => json::JsonView::Object(
            seq![
                ("type"@, json::JsonView::Str("image"@)),
                ("originalContentUrl"@, json::JsonView::Str(url)),
                ("previewImageUrl"@, json::JsonView::Str(url)),
            ],
        ),
        AttachmentKind::Audio => json::JsonView::Object(
            seq![
                ("type"@, json::JsonView::Str("audio"@)),
                ("originalContentUrl"@, json::JsonView::Str(url)),
                ("duration"@, json::int_json(1000)),
            ],
        ),
        AttachmentKind::File => text_json(
            "📎 "@ + match name {
                Some(n) => n,
                None => "file"@,
            } + "\n"@ + url,
        ),
    }
}

/// The message of an attachment, published under an address.
pub fn attachment_message(att: &Attachment, url: &str) -> (r: Json)
    ensures
        r@ == attachment_json(att.kind, text::opt_text(att.name), url@),
{
    match att.kind {
        AttachmentKind::Image => {
            let m: Members = Members::new().with_str("type", "image").with_str(
                "originalContentUrl",
                url,
            ).with_str("previewImageUrl", url);
            assert(m@ =~= attachment_json(att.kind, text::opt_text(att.name), url@)->Object_0);
            m.object()
        },
        AttachmentKind::Audio => {
            let m: Members = Members::new().with_str("type", "audio").with_str(
                "originalContentUrl",
                url,
            ).with("duration", json::count_json(1000));
            assert(m@ =~= attachment_json(att.kind, text::opt_text(att.name), url@)->Object_0);
            m.object()
        },
        AttachmentKind::File => {
            let label: String = match &att.name {
                Some(n) => n.clone(),
                None => "file".to_string(),
            };
            let head: String = text::concat3("📎 ", label.as_str(), "\n");
            make_text(text::concat2(head.as_str(), url).as_str())
        },
    }
}

/// What is said of an attachment that cannot be published.
pub fn unpublished_text(att: &Attachment) -> (r: String)
    ensures
        r@ == "[attachment "@ + att.path@ + " — no publisher configured]"@,
{
    text::concat3("[attachment ", att.path.as_str(), " — no publisher configured]")
}

/// The body that shows that the bot is at work.
pub open spec fn loading_json(user: Seq<char>) -> json::JsonView {
    json::JsonView::Object(
        seq![("chatId"@, json::JsonView::Str(user)), ("loadingSeconds"@, json::int_json(20))],
    )
}

/// The body that shows that the bot is at work.
pub fn typing_body(ctx: &ReplyCtx) -> (r: Result<Json, String>)
    ensures
        match (r, text::opt_text(ctx.user)) {
            (Ok(body), Some(user)) => body@ == loading_json(user),
            (Err(e), None) => e@ == "LINE show_typing requires user id"@,
            _ => false,
        },
{
    match &ctx.user {
        Some(user) => {
            let m: Members = Members::new().with_str("chatId", user.as_str()).with(
                "loadingSeconds",
                json::count_json(20),
            );
            assert(m@ =~= loading_json(user@)->Object_0);
            Ok(m.object())
        },
        None => Err("LINE show_typing requires user id".to_string()),
    }
}

// ── Laws ────────────────────────────────────────────────────────────────

/// A signed call that can be read is taken up; one that cannot is a bad request.
pub proof fn signed_calls_are_taken_up(
    j: json::JsonView,
    v: Seq<EnvelopeView>,
    boot_ms: i64,
    allowlist: Seq<Seq<char>>,
)
    ensures
        webhook_answer(true, None, boot_ms, allowlist) == Err::<Seq<InboundView>, u16>(400),
        webhook_from(j) is None ==> webhook_answer(true, Some(j), boot_ms, allowlist) == Err::<
            Seq<InboundView>,
            u16,
        >(400),
        webhook_from(j) == Some(v) ==> webhook_answer(true, Some(j), boot_ms, allowlist) == Ok::<
            Seq<InboundView>,
            u16,
        >(all_screened(v, boot_ms, allowlist)),
{
}

/// Of a list of events each message of a served user that is not older than the
/// bridge is taken up as it is, in order, and nothing else. An empty list serves
/// everybody.
pub proof fn fresh_messages_of_served_users_are_taken_up(
    v: Seq<EnvelopeView>,
    e: EnvelopeView,
    user: Seq<char>,
    message: LineMessageView,
    boot_ms: i64,
    allowlist: Seq<Seq<char>>,
)
    ensures
        e.user_id == Some(user) && e.message == Some(message) && e.timestamp >= boot_ms && (
        allowlist.len() == 0 || allowlist.contains(user)) ==> all_screened(
            v.push(e),
            boot_ms,
            allowlist,
        ) == all_screened(v, boot_ms, allowlist).push(
            InboundView {
                user,
                message,
                reply_token: e.reply_token,
                timestamp: e.timestamp,
            },
        ),
        e.user_id is None || e.message is None || e.timestamp < boot_ms || (e.user_id == Some(user)
            && allowlist.len() > 0 && !allowlist.contains(user)) ==> all_screened(
            v.push(e),
            boot_ms,
            allowlist,
        ) == all_screened(v, boot_ms, allowlist),
        all_screened(Seq::empty(), boot_ms, allowlist).len() == 0,
{
    assert(v.push(e).drop_last() =~= v);
    let head = all_screened(v, boot_ms, allowlist);
    let got = screened(e, boot_ms, allowlist);
    if got.len() == 0 {
        assert(head + got =~= head);
    } else {
        assert(head + got =~= head.push(got[0]));
    }
}

/// An event is read with its time, its user, its reply token and its message.
pub proof fn events_are_read(
    j: json::JsonView,
    source: json::JsonView,
    m: json::JsonView,
    at: i64,
    user: Seq<char>,
    token: Seq<char>,
    kind: Seq<char>,
    said: Seq<char>,
    id: Seq<char>,
)
    requires
        j is Object,
        j.get("timestamp"@) == Some(json::int_json(at as int)),
        j.get("source"@) == Some(source),
        source is Object,
        source.get("userId"@) == Some(json::JsonView::Str(user)),
        j.get("replyToken"@) == Some(json::JsonView::Str(token)),
        j.get("message"@) == Some(m),
        m is Object,
        m.get("type"@) == Some(json::JsonView::Str(kind)),
        m.get("text"@) == Some(json::JsonView::Str(said)),
        m.get("id"@) == Some(json::JsonView::Str(id)),
        m.get("fileName"@) is None,
        m.get("contentProvider"@) is None,
    ensures
        envelope_from(j) == Some(
            EnvelopeView {
                timestamp: at,
                user_id: Some(user),
                reply_token: Some(token),
                message: Some(
                    LineMessageView {
                        kind,
                        text: Some(said),
                        id: Some(id),
                        file_name: None,
                        provider: None,
                    },
                ),
            },
        ),
{
    text::integer_reads_back(at as int);
}

/// A file is read with its name and with who keeps it.
pub proof fn files_are_read(
    m: json::JsonView,
    p: json::JsonView,
    name: Seq<char>,
    keeper: Seq<char>,
    url: Seq<char>,
    got: LineMessageView,
)
    requires
        m is Object,
        m.get("fileName"@) == Some(json::JsonView::Str(name)),
        m.get("contentProvider"@) == Some(p),
        p is Object,
        p.get("type"@) == Some(json::JsonView::Str(keeper)),
        p.get("originalContentUrl"@) == Some(json::JsonView::Str(url)),
        line_message_from(m) == Some(got),
    ensures
        got.file_name == Some(name),
        got.provider == Some(ProviderView { kind: keeper, url: Some(url) }),
{
}

/// The events of a call are handed out in order.
pub proof fn calls_hold_their_events(
    j: json::JsonView,
    a: Seq<json::JsonView>,
    v: Seq<EnvelopeView>,
    next: json::JsonView,
    e: EnvelopeView,
)
    requires
        j is Object,
        j.get("events"@) == Some(json::JsonView::Array(a)),
        envelopes_from(a) == Some(v),
        envelope_from(next) == Some(e),
    ensures
        webhook_from(j) == Some(v),
        envelopes_from(a.push(next)) == Some(v.push(e)),
        envelopes_from(Seq::empty()) == Some(Seq::<EnvelopeView>::empty()),
{
    assert(a.push(next).drop_last() =~= a);
}

proof fn lemma_media_kinds()
    ensures
        "text"@.len() == 4 && "text"@[0] == 't',
        "image"@.len() == 5 && "image"@[0] == 'i',
        "file"@.len() == 4 && "file"@[0] == 'f',
        "audio"@.len() == 5 && "audio"@[0] == 'a',
        "video"@.len() == 5 && "video"@[0] == 'v',
        "line"@.len() == 4 && "line"@[0] == 'l',
        "external"@.len() == 8,
{
    reveal_strlit("text");
    reveal_strlit("image");
    reveal_strlit("file");
    reveal_strlit("audio");
    reveal_strlit("video");
    reveal_strlit("line");
    reveal_strlit("external");
}

/// A text is what it says. Media that the platform keeps are fetched by their id, each
/// as what it is; of media kept elsewhere the address is told. Anything else is left
/// alone.
pub proof fn contents_are_what_they_are(
    m: LineMessageView,
    t: Seq<char>,
    id: Seq<char>,
    url: Seq<char>,
)
    ensures
        m.kind == "text"@ && m.text == Some(t) ==> content_of(m) == ContentView::Text(t),
        m.kind == "image"@ && m.provider is None && m.id == Some(id) ==> content_of(m) == (
        ContentView::Fetch { id, kind: AttachmentKind::Image, file_name: m.file_name }),
        m.kind == "audio"@ && m.provider is None && m.id == Some(id) ==> content_of(m) == (
        ContentView::Fetch { id, kind: AttachmentKind::Audio, file_name: m.file_name }),
        (m.kind == "file"@ || m.kind == "video"@) && m.provider is None && m.id == Some(id)
            ==> content_of(m) == (ContentView::Fetch {
            id,
            kind: AttachmentKind::File,
            file_name: m.file_name,
        }),
        (m.kind == "file"@ || m.kind == "video"@ || m.kind == "image"@ || m.kind == "audio"@)
            && m.provider == Some(ProviderView { kind: "external"@, url: Some(url) }) ==> content_of(
            m,
        ) == ContentView::Text("[external "@ + m.kind + " attachment: "@ + url + "]"@),
        m.kind != "text"@ && m.kind != "image"@ && m.kind != "audio"@ && m.kind != "file"@ && m.kind
            != "video"@ ==> content_of(m) == ContentView::Nothing,
{
    lemma_media_kinds();
}

/// The type of a fetched file is what its header says, without parameters.
pub proof fn media_types_have_no_parameters(h: Seq<char>, p: Seq<char>)
    requires
        h.len() > 0,
        !h.contains(';'),
        !text::is_white(h[0]),
        !text::is_white(h.last()),
    ensures
        media_type(Some(h)) == h,
        media_type(Some(h + ";"@ + p)) == h,
{
    reveal_strlit(";");
    text::lemma_trim_same(h);
    text::lemma_split_first(h, ';', h.len() as int);
    assert(h.take(h.len() as int) =~= h);
    let s = h + ";"@ + p;
    let n = h.len() as int;
    assert(s[n] == ';');
    assert forall|j: int| 0 <= j < n implies s[j] != ';' by {
        assert(s[j] == h[j]);
    }
    text::lemma_split_first(s, ';', n);
    assert(s.take(n) =~= h);
}

/// A fetched file is stored under the name it was sent with, or else under its id.
pub proof fn files_are_stored_by_name(name: Seq<char>, id: Seq<char>, mime: Seq<char>)
    ensures
        stored_name(Some(name), id, mime) == types::safe_name(name),
        stored_name(None, id, "image/jpeg"@) == types::safe_name(id + ".jpg"@),
        stored_name(None, id, "image/png"@) == types::safe_name(id + ".png"@),
{
    reveal_strlit("image/jpeg");
    reveal_strlit("image/png");
    assert("image/jpeg"@.len() == 10 && "image/png"@.len() == 9);
}

/// A message belongs to the conversation of its user, says what was said, and keeps
/// the reply token with the time it came; what says nothing is none.
pub proof fn messages_keep_their_reply_token(
    m: InboundView,
    token: Seq<char>,
    said: Seq<char>,
    files: Seq<Attachment>,
    at: i64,
)
    requires
        said.len() > 0 || files.len() > 0,
    ensures
        m.reply_token == Some(token) ==> message_of(m, said, files, at) == Some(
            types::MessageView {
                key: "line"@ + ":"@ + m.user,
                text: said,
                attachments: files,
                reply_ctx: types::ReplyCtxView {
                    channel: None,
                    thread: None,
                    user: Some(m.user),
                    extra: json::JsonView::Object(
                        seq![
                            ("reply_token"@, json::JsonView::Str(token)),
                            ("reply_token_ms"@, json::JsonView::Number(text::integer(at as int))),
                        ],
                    ),
                },
                timestamp_ms: m.timestamp,
            },
        ),
        m.reply_token is None ==> (message_of(m, said, files, at) matches Some(r)
            && r.reply_ctx.extra is Null && r.text == said && r.attachments == files && r.key
            == "line"@ + ":"@ + m.user && r.reply_ctx.user == Some(m.user) && r.timestamp_ms
            == m.timestamp),
        message_of(m, Seq::empty(), Seq::empty(), at) is None,
{
}

/// A reply that fits is one text message; a longer one is several, in order, each of
/// which fits.
pub proof fn replies_fit(t: Seq<char>, i: int)
    ensures
        split::byte_len(t) <= 5000 ==> batches(text_messages(t)) == seq![
            seq![
                json::JsonView::Object(
                    seq![
                        ("type"@, json::JsonView::Str("text"@)),
                        ("text"@, json::JsonView::Str(t)),
                    ],
                ),
            ],
        ],
        text_messages(t).len() == split::pieces(t, 5000).len(),
        0 <= i < split::pieces(t, 5000).len() ==> text_messages(t)[i] == json::JsonView::Object(
            seq![
                ("type"@, json::JsonView::Str("text"@)),
                ("text"@, json::JsonView::Str(split::pieces(t, 5000)[i].0)),
            ],
        ) && split::byte_len(split::pieces(t, 5000)[i].0) <= 5000,
{
    split::pieces_keep_the_text(t, 5000);
    if split::byte_len(t) <= 5000 {
        split::short_text_is_one_chunk(t, 5000);
        assert(text_messages(t) =~= seq![text_json(t)]);
        assert(batches(text_messages(t)) =~= seq![seq![text_json(t)]]);
    }
}

/// A message is pushed to its user as long as the quota lasts; then the count and the
/// quota are told.
pub proof fn pushes_are_counted(
    count: u64,
    limit: u64,
    to: Seq<char>,
    messages: Seq<json::JsonView>,
)
    ensures
        pushed(count, None, to, messages) == DeliveryView::Push(
            json::JsonView::Object(
                seq![
                    ("to"@, json::JsonView::Str(to)),
                    ("messages"@, json::JsonView::Array(messages)),
                ],
            ),
        ),
        count < limit ==> pushed(count, Some(limit), to, messages) == pushed(
            count,
            None,
            to,
            messages,
        ),
        count >= limit ==> pushed(count, Some(limit), to, messages) == DeliveryView::Exhausted(
            "LINE push message quota exhausted ("@ + text::decimal(count as nat) + "/"@
                + text::decimal(limit as nat) + "). Wait for monthly reset."@,
        ),
        reply_json(to, messages) == json::JsonView::Object(
            seq![
                ("replyToken"@, json::JsonView::Str(to)),
                ("messages"@, json::JsonView::Array(messages)),
            ],
        ),
{
}

/// An image and a sound are sent by their address; of any other file the name and the
/// address are told.
pub proof fn files_are_sent_by_address(name: Seq<char>, url: Seq<char>, user: Seq<char>)
    ensures
        attachment_json(AttachmentKind::Image, Some(name), url) == json::JsonView::Object(
            seq![
                ("type"@, json::JsonView::Str("image"@)),
                ("originalContentUrl"@, json::JsonView::Str(url)),
                ("previewImageUrl"@, json::JsonView::Str(url)),
            ],
        ),
        attachment_json(AttachmentKind::Audio, Some(name), url) == json::JsonView::Object(
            seq![
                ("type"@, json::JsonView::Str("audio"@)),
                ("originalContentUrl"@, json::JsonView::Str(url)),
                ("duration"@, json::JsonView::Number(text::integer(1000))),
            ],
        ),
        attachment_json(AttachmentKind::File, Some(name), url) == json::JsonView::Object(
            seq![
                ("type"@, json::JsonView::Str("text"@)),
                ("text"@, json::JsonView::Str("📎 "@ + name + "\n"@ + url)),
            ],
        ),
        attachment_json(AttachmentKind::File, None, url) == attachment_json(
            AttachmentKind::File,
            Some("file"@),
            url,
        ),
        loading_json(user) == json::JsonView::Object(
            seq![
                ("chatId"@, json::JsonView::Str(user)),
                ("loadingSeconds"@, json::JsonView::Number(text::integer(20))),
            ],
        ),
{
}

} // verus!
