//! Telegram: long polling for updates and the bodies of the Bot interface.

use vstd::prelude::*;
use vstd::string::*;

use crate::codec;
use crate::discord;
use crate::json;
use crate::json::{Json, Members};
use crate::split;
use crate::text;
use crate::types;
use crate::types::{Attachment, AttachmentKind, Message, ReplyCtx, SessionKey};

verus! {

/// The longest message, in bytes.
pub const TELEGRAM_TEXT_MAX: usize = 4096;

/// How long a poll waits for updates.
pub const POLL_TIMEOUT_SECS: u64 = 30;

/// The wait after a poll that failed.
pub const POLL_RETRY_MS: u64 = 5_000;

#[derive(Debug, PartialEq, Eq)]
pub struct TelegramConfig {
    pub bot_token: String,
}

pub struct TelegramPlatform {
    pub cfg: TelegramConfig,
    /// The first update that is still wanted.
    pub offset: i64,
}

// ── Updates ─────────────────────────────────────────────────────────────

#[derive(Debug, PartialEq, Eq)]
pub struct TgUser {
    pub id: i64,
}

#[derive(Debug, PartialEq, Eq)]
pub struct TgChat {
    pub id: i64,
}

#[derive(Debug, PartialEq, Eq)]
pub struct TgMessage {
    pub message_id: Option<i64>,
    pub from: Option<TgUser>,
    pub chat: TgChat,
    pub date: Option<u64>,
    pub text: Option<String>,
}

#[derive(Debug, PartialEq, Eq)]
pub struct Update {
    pub update_id: i64,
    pub message: Option<TgMessage>,
}

/// The reply to a poll.
#[derive(Debug, PartialEq, Eq)]
pub struct ApiResponse {
    pub ok: bool,
    pub result: Option<Vec<Update>>,
    pub description: Option<String>,
}

pub struct TgView {
    pub message_id: Option<i64>,
    pub from: Option<i64>,
    pub chat: i64,
    pub date: Option<u64>,
    pub text: Option<Seq<char>>,
}

pub struct UpdateView {
    pub update_id: i64,
    pub message: Option<TgView>,
}

pub struct ResponseView {
    pub ok: bool,
    pub result: Option<Seq<UpdateView>>,
    pub description: Option<Seq<char>>,
}

impl View for TgMessage {
    type V = TgView;

    open spec fn view(&self) -> TgView {
        TgView {
            message_id: self.message_id,
            from: match self.from {
                Some(u) => Some(u.id),
                None => None,
            },
            chat: self.chat.id,
            date: self.date,
            text: text::opt_text(self.text),
        }
    }
}

impl View for Update {
    type V = UpdateView;

    open spec fn view(&self) -> UpdateView {
        UpdateView {
            update_id: self.update_id,
            message: match self.message {
                Some(m) => Some(m@),
                None => None,
            },
        }
    }
}

pub open spec fn update_views(v: Seq<Update>) -> Seq<UpdateView> {
    Seq::new(v.len(), |i: int| v[i]@)
}

impl View for ApiResponse {
    type V = ResponseView;

    open spec fn view(&self) -> ResponseView {
        ResponseView {
            ok: self.ok,
            result: match self.result {
                Some(v) => Some(update_views(v@)),
                None => None,
            },
            description: text::opt_text(self.description),
        }
    }
}

/// An optional integer: absent or null, or a number. Anything else is an error.
pub open spec fn opt_integer_at(j: json::JsonView, key: Seq<char>) -> Result<Option<i64>, ()> {
    match j.get(key) {
        None => Ok(None),
        Some(json::JsonView::Null) => Ok(None),
        Some(v) => match v.integer() {
            Some(i) => Ok(Some(i)),
            None => Err(()),
        },
    }
}

fn opt_integer_of(j: &Json, key: &str) -> (r: Result<Option<i64>, ()>)
    ensures
        r == opt_integer_at(j@, key@),
{
    match j.get(key) {
        None => Ok(None),
        Some(v) => match v {
            Json::Null => Ok(None),
            _ => match v.as_integer() {
                Some(i) => Ok(Some(i)),
                None => Err(()),
            },
        },
    }
}

/// The id of a user or a chat.
pub open spec fn id_from(j: json::JsonView) -> Option<i64> {
    codec::integer_at(json::as_struct(j, seq!["id"@], 1), "id"@)
}

/// The fields of a message.
pub open spec fn message_fields() -> Seq<Seq<char>> {
    seq!["message_id"@, "from"@, "chat"@, "date"@, "text"@]
}

/// The fields of an update.
pub open spec fn update_fields() -> Seq<Seq<char>> {
    seq!["update_id"@, "message"@]
}

/// The fields of a reply.
pub open spec fn response_fields() -> Seq<Seq<char>> {
    seq!["ok"@, "result"@, "description"@]
}

/// The id of the sender, who may be missing.
pub open spec fn sender_from(j: json::JsonView) -> Result<Option<i64>, ()> {
    match j.get("from"@) {
        None => Ok(None),
        Some(json::JsonView::Null) => Ok(None),
        Some(v) => match id_from(v) {
            Some(id) => Ok(Some(id)),
            None => Err(()),
        },
    }
}

/// A message. The chat is required.
pub open spec fn tg_from(j: json::JsonView) -> Option<TgView> {
    let j = json::as_struct(j, message_fields(), 5);
    let chat = match j.get("chat"@) {
        Some(c) => id_from(c),
        None => None,
    };
    match (
        opt_integer_at(j, "message_id"@),
        sender_from(j),
        chat,
        codec::opt_count_at(j, "date"@),
        codec::opt_text_at(j, "text"@),
    ) {
        (Ok(message_id), Ok(from), Some(chat), Ok(date), Ok(text)) => Some(
            TgView { message_id, from, chat, date, text },
        ),
        _ => None,
    }
}

/// An update: its id, and a message if it is about one.
pub open spec fn update_from(j: json::JsonView) -> Option<UpdateView> {
    let j = json::as_struct(j, update_fields(), 2);
    match codec::integer_at(j, "update_id"@) {
        None => None,
        Some(update_id) => match j.get("message"@) {
            None => Some(UpdateView { update_id, message: None }),
            Some(json::JsonView::Null) => Some(UpdateView { update_id, message: None }),
            Some(m) => match tg_from(m) {
                Some(m) => Some(UpdateView { update_id, message: Some(m) }),
                None => None,
            },
        },
    }
}

/// A list of updates; an error in one is an error of all.
pub open spec fn updates_from(a: Seq<json::JsonView>) -> Option<Seq<UpdateView>>
    decreases a.len(),
{
    if a.len() == 0 {
        Some(Seq::empty())
    } else {
        match (updates_from(a.drop_last()), update_from(a.last())) {
            (Some(v), Some(u)) => Some(v.push(u)),
            _ => None,
        }
    }
}

/// The reply to a poll.
pub open spec fn response_from(j: json::JsonView) -> Option<ResponseView> {
    let j = json::as_struct(j, response_fields(), 3);
    let ok = match j.get("ok"@) {
        Some(b) => b.truth(),
        None => None,
    };
    let result: Option<Option<Seq<UpdateView>>> = match j.get("result"@) {
        None => Some(None),
        Some(json::JsonView::Null) => Some(None),
        Some(json::JsonView::Array(a)) => match updates_from(a) {
            Some(v) => Some(Some(v)),
            None => None,
        },
        Some(_) => None,
    };
    match (ok, result, codec::opt_text_at(j, "description"@)) {
        (Some(ok), Some(result), Ok(description)) => Some(
            ResponseView { ok, result, description },
        ),
        _ => None,
    }
}

fn integer_of(j: &Json, key: &str) -> (r: Option<i64>)
    ensures
        r == codec::integer_at(j@, key@),
{
    match j.get(key) {
        Some(v) => v.as_integer(),
        None => None,
    }
}

fn id_of(j: &Json) -> (r: Option<i64>)
    ensures
        r == id_from(j@),
{
    let names: Vec<&str> = vec!["id"];
    assert(json::strs(names@) =~= seq!["id"@]);
    let j: &Json = &j.as_struct(&names, 1);
    integer_of(j, "id")
}

fn read_sender(j: &Json) -> (r: Result<Option<TgUser>, ()>)
    ensures
        match r {
            Ok(Some(u)) => sender_from(j@) == Ok::<Option<i64>, ()>(Some(u.id)),
            Ok(None) => sender_from(j@) == Ok::<Option<i64>, ()>(None),
            Err(_) => sender_from(j@) is Err,
        },
{
    match j.get("from") {
        None => Ok(None),
        Some(v) => match v {
            Json::Null => Ok(None),
            _ => match id_of(v) {
                Some(id) => Ok(Some(TgUser { id })),
                None => Err(()),
            },
        },
    }
}

fn read_tg(j: &Json) -> (r: Option<TgMessage>)
    ensures
        match r {
            Some(m) => tg_from(j@) == Some(m@),
            None => tg_from(j@) is None,
        },
{
    let names: Vec<&str> = vec!["message_id", "from", "chat", "date", "text"];
    assert(json::strs(names@) =~= message_fields());
    let j: &Json = &j.as_struct(&names, 5);
    let chat: TgChat = match j.get("chat") {
        None => {
            return None;
        },
        Some(c) => match id_of(c) {
            None => {
                return None;
            },
            Some(id) => TgChat { id },
        },
    };
    match (
        opt_integer_of(j, "message_id"),
        read_sender(j),
        codec::opt_count_of(j, "date"),
        codec::opt_text_of(j, "text"),
    ) {
        (Ok(message_id), Ok(from), Ok(date), Ok(text)) => Some(
            TgMessage { message_id, from, chat, date, text },
        ),
        _ => None,
    }
}

/// The update that a value stands for.
pub fn read_update(j: &Json) -> (r: Option<Update>)
    ensures
        match r {
            Some(u) => update_from(j@) == Some(u@),
            None => update_from(j@) is None,
        },
{
    let names: Vec<&str> = vec!["update_id", "message"];
    assert(json::strs(names@) =~= update_fields());
    let j: &Json = &j.as_struct(&names, 2);
    let update_id: i64 = match integer_of(j, "update_id") {
        Some(i) => i,
        None => {
            return None;
        },
    };
    match j.get("message") {
        None => Some(Update { update_id, message: None }),
        Some(m) => match m {
            Json::Null => Some(Update { update_id, message: None }),
            _ => match read_tg(m) {
                Some(t) => Some(Update { update_id, message: Some(t) }),
                None => None,
            },
        },
    }
}

proof fn lemma_updates_fail(a: Seq<json::JsonView>, i: int)
    requires
        0 <= i < a.len(),
        update_from(a[i]) is None,
    ensures
        updates_from(a) is None,
    decreases a.len(),
{
    if i < a.len() - 1 {
        lemma_updates_fail(a.drop_last(), i);
    }
}

fn read_updates(v: &Vec<Json>) -> (r: Option<Vec<Update>>)
    ensures
        match r {
            Some(u) => updates_from(json::json_views(v@)) == Some(update_views(u@)),
            None => updates_from(json::json_views(v@)) is None,
        },
{
    let ghost a = json::json_views(v@);
    let mut out: Vec<Update> = Vec::new();
    proof {
        json::lemma_json_views(v@);
        assert(a.take(0) =~= Seq::<json::JsonView>::empty());
        assert(update_views(out@) =~= Seq::<UpdateView>::empty());
    }
    let mut i: usize = 0;
    while i < v.len()
        invariant
            i <= v@.len() == a.len(),
            a == json::json_views(v@),
            forall|j: int| 0 <= j < v@.len() ==> #[trigger] a[j] == json::json_view(v@[j]),
            updates_from(a.take(i as int)) == Some(update_views(out@)),
        decreases v@.len() - i,
    {
        assert(a[i as int] == v@[i as int]@);
        match read_update(&v[i]) {
            None => {
                proof {
                    lemma_updates_fail(a, i as int);
                }
                return None;
            },
            Some(u) => {
                let ghost before = out@;
                let ghost seen = u@;
                out.push(u);
                proof {
                    assert(a.take(i + 1).drop_last() =~= a.take(i as int));
                    assert(a.take(i + 1).last() == a[i as int]);
                    assert(update_views(out@) =~= update_views(before).push(seen));
                }
            },
        }
        i = i + 1;
    }
    assert(a.take(i as int) =~= a);
    Some(out)
}

/// The reply to a poll that a value stands for.
pub fn read_response(j: &Json) -> (r: Option<ApiResponse>)
    ensures
        match r {
            Some(a) => response_from(j@) == Some(a@),
            None => response_from(j@) is None,
        },
{
    let names: Vec<&str> = vec!["ok", "result", "description"];
    assert(json::strs(names@) =~= response_fields());
    let j: &Json = &j.as_struct(&names, 3);
    let ok: bool = match j.get("ok") {
        None => {
            return None;
        },
        Some(b) => match b.as_bool() {
            Some(t) => t,
            None => {
                return None;
            },
        },
    };
    let result: Option<Vec<Update>> = match j.get("result") {
        None => None,
        Some(v) => match v {
            Json::Null => None,
            Json::Array(a) => match read_updates(a) {
                Some(u) => Some(u),
                None => {
                    return None;
                },
            },
            _ => {
                return None;
            },
        },
    };
    match codec::opt_text_of(j, "description") {
        Ok(description) => Some(ApiResponse { ok, result, description }),
        Err(_) => None,
    }
}

// ── Inbound messages ────────────────────────────────────────────────────

/// The milliseconds of a time in seconds; 0 where they do not fit.
pub open spec fn date_ms(date: Option<u64>) -> i64 {
    match date {
        Some(d) => if d * 1000 <= i64::MAX {
            (d * 1000) as i64
        } else {
            0
        },
        None => 0,
    }
}

fn date_in_ms(date: Option<u64>) -> (r: i64)
    ensures
        r == date_ms(date),
{
    match date {
        Some(d) => if d <= 9_223_372_036_854_775 {
            (d * 1000) as i64
        } else {
            0
        },
        None => 0,
    }
}

/// The message of an update: none where nothing is said. Without a sender, the
/// chat stands for them.
pub open spec fn message_of(u: UpdateView) -> Option<types::MessageView> {
    match u.message {
        None => None,
        Some(m) => match m.text {
            None => None,
            Some(t) => if t.len() == 0 {
                None
            } else {
                let user = match m.from {
                    Some(id) => id,
                    None => m.chat,
                };
                let chat = text::integer(m.chat as int);
                let sender = text::integer(user as int);
                Some(
                    types::MessageView {
                        key: types::session_key("telegram"@, chat + "/"@ + sender),
                        text: t,
                        attachments: Seq::empty(),
                        reply_ctx: types::ReplyCtxView {
                            channel: Some(chat),
                            thread: match m.message_id {
                                Some(id) => Some(text::integer(id as int)),
                                None => None,
                            },
                            user: Some(sender),
                            extra: json::JsonView::Null,
                        },
                        timestamp_ms: date_ms(m.date),
                    },
                )
            },
        },
    }
}

/// The message of an update.
pub fn to_message(u: &Update) -> (r: Option<Message>)
    ensures
        discord::opt_message(r) == message_of(u@),
{
    match &u.message {
        None => None,
        Some(m) => {
            let said: String = match &m.text {
                None => {
                    return None;
                },
                Some(t) => t.clone(),
            };
            if said.as_str().unicode_len() == 0 {
                return None;
            }
            let user: i64 = match &m.from {
                Some(u) => u.id,
                None => m.chat.id,
            };
            let chat: String = text::integer_text(m.chat.id);
            let sender: String = text::integer_text(user);
            let scoped: String = text::concat3(chat.as_str(), "/", sender.as_str());
            let attachments: Vec<Attachment> = Vec::new();
            assert(attachments@ =~= Seq::<Attachment>::empty());
            let thread: Option<String> = match m.message_id {
                Some(id) => Some(text::integer_text(id)),
                None => None,
            };
            Some(
                Message {
                    key: SessionKey::new("telegram", scoped.as_str()),
                    text: said,
                    attachments,
                    reply_ctx: ReplyCtx {
                        channel: Some(chat),
                        thread,
                        user: Some(sender),
                        extra: Json::Null,
                    },
                    timestamp_ms: date_in_ms(m.date),
                },
            )
        },
    }
}

// ── Polling ─────────────────────────────────────────────────────────────

/// The body of a poll.
pub open spec fn poll_json(offset: i64) -> json::JsonView {
    json::JsonView::Object(
        seq![
            ("offset"@, json::int_json(offset as int)),
            ("timeout"@, json::int_json(30)),
            ("allowed_updates"@, json::JsonView::Array(seq![json::JsonView::Str("message"@)])),
        ],
    )
}

/// The first update that is wanted after these: the one behind the last.
pub open spec fn offset_after(offset: i64, updates: Seq<UpdateView>) -> i64 {
    if updates.len() == 0 {
        offset
    } else if updates.last().update_id == i64::MAX {
        i64::MAX
    } else {
        (updates.last().update_id + 1) as i64
    }
}

impl TelegramPlatform {
    pub fn new(cfg: TelegramConfig) -> (r: TelegramPlatform)
        ensures
            r.cfg == cfg,
            r.offset == 0,
    {
        TelegramPlatform { cfg, offset: 0 }
    }

    pub fn name(&self) -> (r: &'static str)
        ensures
            r@ == "telegram"@,
    {
        "telegram"
    }

    /// The address of a method.
    pub fn api_url(&self, method: &str) -> (r: String)
        ensures
            r@ == "https://api.telegram.org/bot"@ + self.cfg.bot_token@ + "/"@ + method@,
    {
        let head: String = text::concat3(
            "https://api.telegram.org/bot",
            self.cfg.bot_token.as_str(),
            "/",
        );
        text::concat2(head.as_str(), method)
    }

    /// The body of the next poll.
    pub fn poll_body(&self) -> (r: Json)
        ensures
            r@ == poll_json(self.offset),
    {
        let m: Members = Members::new().with("offset", json::number_json(self.offset)).with(
            "timeout",
            json::count_json(POLL_TIMEOUT_SECS),
        ).with("allowed_updates", json::single_json(json::str_json("message")));
        assert(m@ =~= poll_json(self.offset)->Object_0);
        m.object()
    }

    /// Takes the reply to a poll: the updates, whose last one moves the offset.
    /// A refusal is an error, and leaves the offset where it is.
    pub fn take_response(&mut self, response: ApiResponse) -> (r: Result<Vec<Update>, String>)
        ensures
            final(self).cfg == old(self).cfg,
            match r {
                Ok(v) => response.ok && update_views(v@) == match response@.result {
                    Some(u) => u,
                    None => Seq::empty(),
                } && final(self).offset == offset_after(old(self).offset, update_views(v@)),
                Err(e) => !response.ok && final(self).offset == old(self).offset && e@
                    == "Telegram getUpdates not ok: "@ + match response@.description {
                    Some(d) => d,
                    None => Seq::empty(),
                },
            },
    {
        if !response.ok {
            let detail: String = match response.description {
                Some(d) => d,
                None => {
                    let empty: String = String::new();
                    assert(empty@ =~= Seq::<char>::empty());
                    empty
                },
            };
            return Err(text::concat2("Telegram getUpdates not ok: ", detail.as_str()));
        }
        let updates: Vec<Update> = match response.result {
            Some(v) => v,
            None => {
                let none: Vec<Update> = Vec::new();
                assert(update_views(none@) =~= Seq::<UpdateView>::empty());
                none
            },
        };
        if updates.len() > 0 {
            let last: i64 = updates[updates.len() - 1].update_id;
            assert(update_views(updates@).last() == updates@.last()@);
            self.offset = if last == i64::MAX {
                i64::MAX
            } else {
                last + 1
            };
        }
        Ok(updates)
    }
}

/// No update is asked for twice: the next poll starts behind the last one that
/// came, as long as the service numbers its updates upwards.
pub proof fn updates_are_taken_once(offset: i64, updates: Seq<UpdateView>, i: int)
    requires
        0 <= i < updates.len(),
        updates.last().update_id < i64::MAX,
        forall|a: int, b: int|
            0 <= a <= b < updates.len() ==> (#[trigger] updates[a]).update_id <= (
            #[trigger] updates[b]).update_id,
    ensures
        updates[i].update_id < offset_after(offset, updates),
{
    assert(updates[i].update_id <= updates[updates.len() - 1].update_id);
}

// ── Outbound ────────────────────────────────────────────────────────────

/// A body that sends a text: as a reply to the message of the context, where
/// that is known by a number.
pub open spec fn text_json(chat: Seq<char>, thread: Option<Seq<char>>, chunk: Seq<char>) -> json::JsonView {
    let head = seq![
        ("chat_id"@, json::JsonView::Str(chat)),
        ("text"@, json::JsonView::Str(chunk)),
    ];
    json::JsonView::Object(
        match thread {
            Some(t) => match text::parse_i64(t) {
                Some(id) => head.push(("reply_to_message_id"@, json::int_json(id as int))),
                None => head,
            },
            None => head,
        },
    )
}

fn make_text(chat: &str, thread: &Option<String>, chunk: &str) -> (r: Json)
    ensures
        r@ == text_json(chat@, text::opt_text(*thread), chunk@),
{
    let head: Members = Members::new().with_str("chat_id", chat).with_str("text", chunk);
    let id: Option<i64> = match thread {
        Some(t) => text::parse_signed(t.as_str()),
        None => None,
    };
    let m: Members = match id {
        Some(id) => head.with("reply_to_message_id", json::number_json(id)),
        None => head,
    };
    assert(m@ =~= text_json(chat@, text::opt_text(*thread), chunk@)->Object_0);
    m.object()
}

/// The bodies that send a text: one for each chunk.
pub open spec fn reply_bodies(
    chat: Seq<char>,
    thread: Option<Seq<char>>,
    t: Seq<char>,
) -> Seq<json::JsonView> {
    let chunks = split::chunks(split::pieces(t, TELEGRAM_TEXT_MAX as int));
    Seq::new(chunks.len(), |i: int| text_json(chat, thread, chunks[i]))
}

/// The bodies that send a text.
pub fn reply(ctx: &ReplyCtx, t: &str) -> (r: Result<Vec<Json>, String>)
    ensures
        match (r, text::opt_text(ctx.channel)) {
            (Ok(bodies), Some(chat)) => json::json_views(bodies@) == reply_bodies(
                chat,
                text::opt_text(ctx.thread),
                t@,
            ),
            (Err(e), None) => e@ == "Telegram reply requires chat_id in channel"@,
            _ => false,
        },
{
    let chat: &String = match &ctx.channel {
        Some(c) => c,
        None => {
            return Err("Telegram reply requires chat_id in channel".to_string());
        },
    };
    let ghost thread = text::opt_text(ctx.thread);
    let chunks: Vec<String> = split::split_text(t, TELEGRAM_TEXT_MAX);
    let mut bodies: Vec<Json> = Vec::new();
    let mut i: usize = 0;
    while i < chunks.len()
        invariant
            i <= chunks@.len(),
            bodies@.len() == i,
            thread == text::opt_text(ctx.thread),
            forall|j: int|
                0 <= j < i ==> (#[trigger] bodies@[j])@ == text_json(chat@, thread, chunks@[j]@),
        decreases chunks@.len() - i,
    {
        bodies.push(make_text(chat.as_str(), &ctx.thread, chunks[i].as_str()));
        i = i + 1;
    }
    proof {
        json::lemma_json_views(bodies@);
        let want = reply_bodies(chat@, thread, t@);
        assert(text::texts(chunks@).len() == chunks@.len());
        assert(json::json_views(bodies@) =~= want) by {
            assert forall|j: int| 0 <= j < want.len() implies json::json_views(bodies@)[j]
                == want[j] by {
                assert(text::texts(chunks@)[j] == chunks@[j]@);
                assert(bodies@[j]@ == text_json(chat@, thread, chunks@[j]@));
            }
        }
    }
    Ok(bodies)
}

/// The method that sends a file, and the field that holds it.
pub open spec fn upload_of(kind: AttachmentKind) -> (Seq<char>, Seq<char>) {
    match kind {
        AttachmentKind::Image => ("sendPhoto"@, "photo"@),
        AttachmentKind::Audio => ("sendAudio"@, "audio"@),
        AttachmentKind::File => ("sendDocument"@, "document"@),
    }
}

/// The method that sends a file, and the field that holds it.
pub fn upload_method(kind: AttachmentKind) -> (r: (&'static str, &'static str))
    ensures
        (r.0@, r.1@) == upload_of(kind),
{
    match kind {
        AttachmentKind::Image => ("sendPhoto", "photo"),
        AttachmentKind::Audio => ("sendAudio", "audio"),
        AttachmentKind::File => ("sendDocument", "document"),
    }
}

/// The body that shows that the bot is at work.
pub open spec fn typing_json(chat: Seq<char>) -> json::JsonView {
    json::JsonView::Object(
        seq![("chat_id"@, json::JsonView::Str(chat)), ("action"@, json::JsonView::Str("typing"@))],
    )
}

/// The body that shows that the bot is at work.
pub fn typing_body(ctx: &ReplyCtx) -> (r: Result<Json, String>)
    ensures
        match (r, text::opt_text(ctx.channel)) {
            (Ok(body), Some(chat)) => body@ == typing_json(chat),
            (Err(e), None) => e@ == "Telegram show_typing requires chat_id"@,
            _ => false,
        },
{
    match &ctx.channel {
        Some(chat) => {
            let m: Members = Members::new().with_str("chat_id", chat.as_str()).with_str(
                "action",
                "typing",
            );
            assert(m@ =~= typing_json(chat@)->Object_0);
            Ok(m.object())
        },
        None => Err("Telegram show_typing requires chat_id".to_string()),
    }
}

/// A reply goes to the chat it came from, below the message that it answers.
pub proof fn replies_reach_their_chat(u: UpdateView, chunk: Seq<char>)
    requires
        message_of(u) is Some,
        u.message->Some_0.message_id is Some,
    ensures
        ({
            let ctx = message_of(u)->Some_0.reply_ctx;
            let m = u.message->Some_0;
            text_json(ctx.channel->Some_0, ctx.thread, chunk) == json::JsonView::Object(
                seq![
                    ("chat_id"@, json::JsonView::Str(text::integer(m.chat as int))),
                    ("text"@, json::JsonView::Str(chunk)),
                    ("reply_to_message_id"@, json::int_json(m.message_id->Some_0 as int)),
                ],
            )
        }),
{
    let m = u.message->Some_0;
    text::integer_reads_back(m.message_id->Some_0 as int);
    let ctx = message_of(u)->Some_0.reply_ctx;
    assert(text_json(ctx.channel->Some_0, ctx.thread, chunk)->Object_0 =~= seq![
        ("chat_id"@, json::JsonView::Str(text::integer(m.chat as int))),
        ("text"@, json::JsonView::Str(chunk)),
        ("reply_to_message_id"@, json::int_json(m.message_id->Some_0 as int)),
    ]);
}

// ── Laws ────────────────────────────────────────────────────────────────

/// A text is a message of its sender in its chat, answered there and under it, as
/// old as its date; a message without a sender is the chat's own. An update without a
/// text is none.
pub proof fn texts_are_messages(u: UpdateView, m: TgView, t: Seq<char>, id: i64, date: u64, from: i64)
    requires
        u.message == Some(m),
        m.text == Some(t),
        t.len() > 0,
        m.message_id == Some(id),
        m.date == Some(date),
        date * 1000 <= i64::MAX,
        m.from == Some(from) || (m.from is None && from == m.chat),
    ensures
        message_of(u) == Some(
            types::MessageView {
                key: "telegram"@ + ":"@ + (text::integer(m.chat as int) + "/"@ + text::integer(
                    from as int,
                )),
                text: t,
                attachments: Seq::empty(),
                reply_ctx: types::ReplyCtxView {
                    channel: Some(text::integer(m.chat as int)),
                    thread: Some(text::integer(id as int)),
                    user: Some(text::integer(from as int)),
                    extra: json::JsonView::Null,
                },
                timestamp_ms: (date * 1000) as i64,
            },
        ),
{
}

/// What holds no text, or an empty one, is no message.
pub proof fn other_updates_are_no_messages(u: UpdateView, m: TgView)
    ensures
        u.message is None ==> message_of(u) is None,
        u.message == Some(m) && m.text is None ==> message_of(u) is None,
        u.message == Some(m) && m.text == Some(Seq::<char>::empty()) ==> message_of(u) is None,
{
}

/// An update is read with the text of its message, the chat and the sender.
pub proof fn updates_are_read(
    j: json::JsonView,
    m: json::JsonView,
    chat: json::JsonView,
    from: json::JsonView,
    update: i64,
    id: i64,
    chat_id: i64,
    from_id: i64,
    date: u64,
    t: Seq<char>,
)
    requires
        j is Object,
        j.get("update_id"@) == Some(json::int_json(update as int)),
        j.get("message"@) == Some(m),
        m is Object,
        m.get("message_id"@) == Some(json::int_json(id as int)),
        m.get("chat"@) == Some(chat),
        chat is Object,
        chat.get("id"@) == Some(json::int_json(chat_id as int)),
        m.get("from"@) == Some(from),
        from is Object,
        from.get("id"@) == Some(json::int_json(from_id as int)),
        m.get("date"@) == Some(json::int_json(date as int)),
        m.get("text"@) == Some(json::JsonView::Str(t)),
    ensures
        update_from(j) == Some(
            UpdateView {
                update_id: update,
                message: Some(
                    TgView {
                        message_id: Some(id),
                        from: Some(from_id),
                        chat: chat_id,
                        date: Some(date),
                        text: Some(t),
                    },
                ),
            },
        ),
{
    text::integer_reads_back(update as int);
    text::integer_reads_back(id as int);
    text::integer_reads_back(chat_id as int);
    text::integer_reads_back(from_id as int);
    text::decimal_reads_back(date as nat);
}

/// A response hands out its updates in order.
pub proof fn responses_hold_their_updates(
    j: json::JsonView,
    a: Seq<json::JsonView>,
    ok: bool,
    v: Seq<UpdateView>,
    next: json::JsonView,
    u: UpdateView,
)
    requires
        j is Object,
        j.get("ok"@) == Some(json::JsonView::Bool(ok)),
        j.get("description"@) is None,
        j.get("result"@) == Some(json::JsonView::Array(a)),
        updates_from(a) == Some(v),
        update_from(next) == Some(u),
    ensures
        response_from(j) == Some(ResponseView { ok, result: Some(v), description: None }),
        updates_from(a.push(next)) == Some(v.push(u)),
        updates_from(Seq::empty()) == Some(Seq::<UpdateView>::empty()),
{
    assert(a.push(next).drop_last() =~= a);
}

/// The next poll starts behind the last update that was taken, and asks for messages
/// only.
pub proof fn polls_start_behind_the_last_update(offset: i64, v: Seq<UpdateView>, u: UpdateView)
    requires
        u.update_id < i64::MAX,
    ensures
        offset_after(offset, v.push(u)) == u.update_id + 1,
        offset_after(offset, Seq::empty()) == offset,
        poll_json(offset) == json::JsonView::Object(
            seq![
                ("offset"@, json::JsonView::Number(text::integer(offset as int))),
                ("timeout"@, json::JsonView::Number(text::integer(30))),
                ("allowed_updates"@, json::JsonView::Array(seq![json::JsonView::Str("message"@)])),
            ],
        ),
{
}

/// A reply that fits is one message with the whole text; a longer one is several, in
/// order, each of which fits.
pub proof fn replies_fit(chat: Seq<char>, thread: Option<Seq<char>>, t: Seq<char>, i: int)
    ensures
        split::byte_len(t) <= 4096 ==> reply_bodies(chat, thread, t) == seq![
            text_json(chat, thread, t),
        ],
        reply_bodies(chat, thread, t).len() == split::pieces(t, 4096).len(),
        0 <= i < split::pieces(t, 4096).len() ==> reply_bodies(chat, thread, t)[i] == text_json(
            chat,
            thread,
            split::pieces(t, 4096)[i].0,
        ) && split::byte_len(split::pieces(t, 4096)[i].0) <= 4096,
        text_json(chat, None, t) == json::JsonView::Object(
            seq![("chat_id"@, json::JsonView::Str(chat)), ("text"@, json::JsonView::Str(t))],
        ),
{
    split::pieces_keep_the_text(t, 4096);
    if split::byte_len(t) <= 4096 {
        split::short_text_is_one_chunk(t, 4096);
        assert(reply_bodies(chat, thread, t) =~= seq![text_json(chat, thread, t)]);
    }
}

/// Each kind of file goes out by its own method.
pub proof fn files_go_out_by_kind(chat: Seq<char>)
    ensures
        upload_of(AttachmentKind::Image) == ("sendPhoto"@, "photo"@),
        upload_of(AttachmentKind::Audio) == ("sendAudio"@, "audio"@),
        upload_of(AttachmentKind::File) == ("sendDocument"@, "document"@),
        typing_json(chat) == json::JsonView::Object(
            seq![
                ("chat_id"@, json::JsonView::Str(chat)),
                ("action"@, json::JsonView::Str("typing"@)),
            ],
        ),
        POLL_TIMEOUT_SECS == 30,
        POLL_RETRY_MS == 5_000,
{
}

} // verus!
