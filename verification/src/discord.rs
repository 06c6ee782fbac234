//! Discord: the gateway connection, inbound messages and the bodies of the REST
//! interface. In guilds the bot answers only where it is mentioned; direct
//! messages are always answered.

use vstd::prelude::*;
use vstd::string::*;

use crate::codec;
use crate::json;
use crate::json::{Json, Members};
use crate::split;
use crate::text;
use crate::types;
use crate::types::{Attachment, Message, ReplyCtx, SessionKey};

verus! {

/// The longest message, in bytes.
pub const DISCORD_TEXT_MAX: usize = 2000;

/// The wait before a connection that failed is opened again.
pub const RECONNECT_MS: u64 = 5_000;

/// The wait before a session that was refused is opened again.
pub const REIDENTIFY_MS: u64 = 3_000;

#[derive(Debug, PartialEq, Eq)]
pub struct DiscordConfig {
    pub bot_token: String,
}

// ── Mentions ────────────────────────────────────────────────────────────

/// Where the first `<@` at or after `i` stands.
pub open spec fn mention_start(s: Seq<char>, i: int) -> Option<int>
    decreases s.len() - i,
{
    if i < 0 || i + 2 > s.len() {
        None
    } else if s[i] == '<' && s[i + 1] == '@' {
        Some(i)
    } else {
        mention_start(s, i + 1)
    }
}

/// Where the first `>` at or after `i` stands.
pub open spec fn mention_end(s: Seq<char>, i: int) -> Option<int>
    decreases s.len() - i,
{
    if i < 0 || i >= s.len() {
        None
    } else if s[i] == '>' {
        Some(i)
    } else {
        mention_end(s, i + 1)
    }
}

pub proof fn lemma_mention_start(s: Seq<char>, i: int)
    requires
        0 <= i,
    ensures
        match mention_start(s, i) {
            Some(k) => i <= k && k + 2 <= s.len() && s[k] == '<' && s[k + 1] == '@' && forall|j: int|
                i <= j < k ==> !(#[trigger] s[j] == '<' && s[j + 1] == '@'),
            None => forall|j: int|
                i <= j && j + 2 <= s.len() ==> !(#[trigger] s[j] == '<' && s[j + 1] == '@'),
        },
    decreases s.len() - i,
{
    if i + 2 <= s.len() && !(s[i] == '<' && s[i + 1] == '@') {
        lemma_mention_start(s, i + 1);
    }
}

pub proof fn lemma_mention_end(s: Seq<char>, i: int)
    requires
        0 <= i,
    ensures
        match mention_end(s, i) {
            Some(k) => i <= k < s.len() && s[k] == '>',
            None => forall|j: int| i <= j < s.len() ==> #[trigger] s[j] != '>',
        },
    decreases s.len() - i,
{
    if i < s.len() && s[i] != '>' {
        lemma_mention_end(s, i + 1);
    }
}

/// A text without its mentions: the first one is taken out as long as there is
/// one that is complete.
pub open spec fn without_mentions(s: Seq<char>) -> Seq<char>
    decreases s.len(),
{
    match mention_start(s, 0) {
        None => s,
        Some(i) => match mention_end(s, i) {
            None => s,
            Some(j) => {
                proof {
                    lemma_mention_start(s, 0);
                    lemma_mention_end(s, i);
                }
                without_mentions(s.take(i) + s.skip(j + 1))
            },
        },
    }
}

/// A text without its mentions, and without the white space around what is
/// left.
pub fn strip_mentions(content: &str) -> (r: String)
    ensures
        r@ == text::trim(without_mentions(content@)),
{
    let mut cur: Vec<char> = text::chars_of(content);
    let mut more: bool = true;
    while more
        invariant
            without_mentions(cur@) == without_mentions(content@),
            !more ==> without_mentions(cur@) == cur@,
        decreases
                cur@.len(),
                (if more {
                    1int
                } else {
                    0int
                }),
    {
        let n: usize = cur.len();
        let mut i: usize = 0;
        while i < n && !(i + 1 < n && cur[i] == '<' && cur[i + 1] == '@')
            invariant
                i <= n == cur@.len(),
                mention_start(cur@, 0) == mention_start(cur@, i as int),
            decreases n - i,
        {
            i = i + 1;
        }
        if i >= n {
            more = false;
            continue;
        }
        let mut j: usize = i;
        while j < n && cur[j] != '>'
            invariant
                i <= j <= n == cur@.len(),
                mention_end(cur@, i as int) == mention_end(cur@, j as int),
            decreases n - j,
        {
            j = j + 1;
        }
        if j >= n {
            more = false;
            continue;
        }
        let ghost before = cur@;
        let mut next: Vec<char> = Vec::new();
        let mut k: usize = 0;
        while k < n
            invariant
                k <= n == before.len(),
                cur@ == before,
                i <= j < n,
                next@ == (if k <= i {
                    before.take(k as int)
                } else if k <= j {
                    before.take(i as int)
                } else {
                    before.take(i as int) + before.subrange(j + 1, k as int)
                }),
            decreases n - k,
        {
            if k < i || k > j {
                next.push(cur[k]);
            }
            k = k + 1;
            proof {
                if k <= i {
                    assert(before.take(k as int) =~= before.take(k - 1).push(before[k - 1]));
                } else if k > j + 1 {
                    assert(before.subrange(j + 1, k as int) =~= before.subrange(j + 1, k - 1).push(
                        before[k - 1],
                    ));
                    assert(next@ =~= before.take(i as int) + before.subrange(j + 1, k as int));
                } else if k == j + 1 {
                    assert(next@ =~= before.take(i as int) + before.subrange(j + 1, k as int));
                }
            }
        }
        assert(before.subrange(j + 1, n as int) =~= before.skip(j + 1));
        cur = next;
    }
    let n: usize = cur.len();
    let rest: String = text::string_of(&cur, 0, n);
    assert(rest@ =~= cur@);
    text::trimmed(rest.as_str())
}

/// A complete mention stands in a text.
pub open spec fn mentions(s: Seq<char>) -> bool {
    exists|i: int, j: int|
        0 <= i < j < s.len() && #[trigger] s[i] == '<' && s[i + 1] == '@' && #[trigger] s[j] == '>'
}

proof fn lemma_no_mention(s: Seq<char>)
    ensures
        !mentions(without_mentions(s)),
    decreases s.len(),
{
    lemma_mention_start(s, 0);
    match mention_start(s, 0) {
        None => {
            assert forall|i: int, j: int|
                !(0 <= i < j < s.len() && #[trigger] s[i] == '<' && s[i + 1] == '@'
                    && #[trigger] s[j] == '>') by {}
        },
        Some(i) => {
            lemma_mention_end(s, i);
            match mention_end(s, i) {
                None => {
                    assert forall|a: int, b: int|
                        !(0 <= a < b < s.len() && #[trigger] s[a] == '<' && s[a + 1] == '@'
                            && #[trigger] s[b] == '>') by {
                        if 0 <= a < b < s.len() && s[a] == '<' && s[a + 1] == '@' {
                            assert(a >= i);
                        }
                    }
                },
                Some(j) => {
                    lemma_no_mention(s.take(i) + s.skip(j + 1));
                },
            }
        },
    }
}

proof fn lemma_trim_start_part(s: Seq<char>) -> (k: int)
    ensures
        0 <= k <= s.len(),
        text::trim_start(s) == s.skip(k),
    decreases s.len(),
{
    if s.len() > 0 && text::is_white(s[0]) {
        let k = lemma_trim_start_part(s.drop_first());
        assert(s.drop_first().skip(k) =~= s.skip(k + 1));
        k + 1
    } else {
        assert(s.skip(0) =~= s);
        0
    }
}

proof fn lemma_trim_end_part(s: Seq<char>) -> (k: int)
    ensures
        0 <= k <= s.len(),
        text::trim_end(s) == s.take(k),
    decreases s.len(),
{
    if s.len() > 0 && text::is_white(s.last()) {
        let k = lemma_trim_end_part(s.drop_last());
        assert(s.drop_last().take(k) =~= s.take(k));
        k
    } else {
        assert(s.take(s.len() as int) =~= s);
        s.len() as int
    }
}

/// No complete mention is left in what is handed to the agent.
pub proof fn no_mention_is_left(content: Seq<char>)
    ensures
        !mentions(text::trim(without_mentions(content))),
{
    let s = without_mentions(content);
    lemma_no_mention(content);
    let a = lemma_trim_start_part(s);
    let t = s.skip(a);
    let b = lemma_trim_end_part(t);
    let r = t.take(b);
    assert forall|i: int, j: int|
        !(0 <= i < j < r.len() && #[trigger] r[i] == '<' && r[i + 1] == '@' && #[trigger] r[j]
            == '>') by {
        if 0 <= i < j < r.len() && r[i] == '<' && r[i + 1] == '@' && r[j] == '>' {
            assert(s[i + a] == r[i]);
            assert(s[i + a + 1] == r[i + 1]);
            assert(s[j + a] == r[j]);
        }
    }
}

/// A text without a mention is only trimmed.
pub proof fn plain_text_is_kept(content: Seq<char>)
    requires
        mention_start(content, 0) is None,
    ensures
        text::trim(without_mentions(content)) == text::trim(content),
{
}

// ── Inbound messages ────────────────────────────────────────────────────

/// The mention of a user.
pub open spec fn mention_of(id: Seq<char>) -> Seq<char> {
    "<@"@ + id + ">"@
}

/// The message of a `MESSAGE_CREATE` event. There is none where the author is
/// missing or a bot, where the channel or the author has no id, where a guild
/// message does not mention the bot, or where nothing is said besides mentions.
pub open spec fn message_of(d: json::JsonView, bot_id: Seq<char>) -> Option<types::MessageView> {
    match d.get("author"@) {
        None => None,
        Some(author) => {
            let bot = match author.get("bot"@) {
                Some(b) => b.truth() == Some(true),
                None => false,
            };
            match (d.get_text("channel_id"@), author.get_text("id"@)) {
                (Some(channel), Some(id)) => {
                    let content = match d.get_text("content"@) {
                        Some(c) => c,
                        None => Seq::empty(),
                    };
                    let said = text::trim(without_mentions(content));
                    if bot || (d.get("guild_id"@) is Some && !text::occurs(
                        content,
                        mention_of(bot_id),
                    )) || said.len() == 0 {
                        None
                    } else {
                        Some(
                            types::MessageView {
                                key: types::session_key("discord"@, channel + "/"@ + id),
                                text: said,
                                attachments: Seq::empty(),
                                reply_ctx: types::ReplyCtxView {
                                    channel: Some(channel),
                                    thread: None,
                                    user: Some(id),
                                    extra: json::JsonView::Null,
                                },
                                timestamp_ms: 0,
                            },
                        )
                    }
                },
                _ => None,
            }
        },
    }
}

pub open spec fn opt_message(m: Option<Message>) -> Option<types::MessageView> {
    match m {
        Some(m) => Some(m@),
        None => None,
    }
}

/// The message of a `MESSAGE_CREATE` event.
pub fn read_message(d: &Json, bot_id: &str) -> (r: Option<Message>)
    ensures
        opt_message(r) == message_of(d@, bot_id@),
{
    let author: &Json = match d.get("author") {
        Some(a) => a,
        None => {
            return None;
        },
    };
    let bot: bool = match author.get("bot") {
        Some(b) => match b.as_bool() {
            Some(t) => t,
            None => false,
        },
        None => false,
    };
    if bot {
        return None;
    }
    let channel: String = match d.get_text("channel_id") {
        Some(c) => c,
        None => {
            return None;
        },
    };
    let id: String = match author.get_text("id") {
        Some(i) => i,
        None => {
            return None;
        },
    };
    let content: String = match d.get_text("content") {
        Some(c) => c,
        None => {
            let empty: String = String::new();
            assert(empty@ =~= Seq::<char>::empty());
            empty
        },
    };
    if d.get("guild_id").is_some() {
        let mention: String = text::concat3("<@", bot_id, ">");
        if !text::contains_text(content.as_str(), mention.as_str()) {
            return None;
        }
    }
    let said: String = strip_mentions(content.as_str());
    if said.as_str().unicode_len() == 0 {
        return None;
    }
    let attachments: Vec<Attachment> = Vec::new();
    assert(attachments@ =~= Seq::<Attachment>::empty());
    let scoped: String = text::concat3(channel.as_str(), "/", id.as_str());
    Some(
        Message {
            key: SessionKey::new("discord", scoped.as_str()),
            text: said,
            attachments,
            reply_ctx: ReplyCtx {
                channel: Some(channel),
                thread: None,
                user: Some(id),
                extra: Json::Null,
            },
            timestamp_ms: 0,
        },
    )
}

/// The bot never answers a bot, itself included.
pub proof fn bots_are_not_answered(d: json::JsonView, author: json::JsonView, bot_id: Seq<char>)
    requires
        d.get("author"@) == Some(author),
        author.get("bot"@) == Some(json::JsonView::Bool(true)),
    ensures
        message_of(d, bot_id) is None,
{
}

/// A direct message is answered without a mention.
pub proof fn direct_messages_are_answered(
    d: json::JsonView,
    author: json::JsonView,
    channel: Seq<char>,
    id: Seq<char>,
    content: Seq<char>,
    bot_id: Seq<char>,
)
    requires
        d.get("author"@) == Some(author),
        author.get("bot"@) is None,
        d.get_text("channel_id"@) == Some(channel),
        author.get_text("id"@) == Some(id),
        d.get_text("content"@) == Some(content),
        d.get("guild_id"@) is None,
        text::trim(without_mentions(content)).len() > 0,
    ensures
        message_of(d, bot_id) matches Some(m) && m.text == text::trim(without_mentions(content))
            && m.reply_ctx.channel == Some(channel),
{
}

/// In a guild the bot answers only where it is mentioned.
pub proof fn guild_messages_need_a_mention(d: json::JsonView, bot_id: Seq<char>)
    requires
        d.get("guild_id"@) is Some,
        d.get_text("content"@) matches Some(c) ==> !text::occurs(c, mention_of(bot_id)),
    ensures
        message_of(d, bot_id) is None,
{
    if d.get_text("content"@) is None {
        reveal_strlit("<@");
        let m = mention_of(bot_id);
        assert(m.len() >= 2);
        assert(!text::occurs(Seq::empty(), m));
    }
}

// ── The gateway ─────────────────────────────────────────────────────────

/// A frame of the gateway.
#[derive(Debug, PartialEq, Eq)]
pub struct GatewayPayload {
    pub op: u8,
    pub d: Option<Json>,
    pub s: Option<u64>,
    pub t: Option<String>,
}

pub struct PayloadView {
    pub op: u8,
    pub d: Option<json::JsonView>,
    pub s: Option<u64>,
    pub t: Option<Seq<char>>,
}

impl View for GatewayPayload {
    type V = PayloadView;

    open spec fn view(&self) -> PayloadView {
        PayloadView {
            op: self.op,
            d: match self.d {
                Some(d) => Some(d@),
                None => None,
            },
            s: self.s,
            t: text::opt_text(self.t),
        }
    }
}

/// The fields of a frame.
pub open spec fn payload_fields() -> Seq<Seq<char>> {
    seq!["op"@, "d"@, "s"@, "t"@]
}

/// A frame: its kind is a number of 8 bits, the rest may be absent.
pub open spec fn payload_from(j: json::JsonView) -> Option<PayloadView> {
    let j = json::as_struct(j, payload_fields(), 4);
    let op = match j.get("op"@) {
        Some(v) => v.number(),
        None => None,
    };
    let s: Option<Option<u64>> = match j.get("s"@) {
        None => Some(None),
        Some(json::JsonView::Null) => Some(None),
        Some(v) => match v.number() {
            Some(n) => Some(Some(n as u64)),
            None => None,
        },
    };
    match (op, s, codec::opt_text_at(j, "t"@)) {
        (Some(op), Some(s), Ok(t)) => if op <= 255 {
            Some(
                PayloadView {
                    op: op as u8,
                    d: match j.get("d"@) {
                        Some(json::JsonView::Null) => None,
                        v => v,
                    },
                    s,
                    t,
                },
            )
        } else {
            None
        },
        _ => None,
    }
}

/// The frame that a value stands for.
pub fn read_payload(j: &Json) -> (r: Option<GatewayPayload>)
    ensures
        match r {
            Some(p) => payload_from(j@) == Some(p@),
            None => payload_from(j@) is None,
        },
{
    let names: Vec<&str> = vec!["op", "d", "s", "t"];
    assert(json::strs(names@) =~= payload_fields());
    let j: &Json = &j.as_struct(&names, 4);
    let op: u8 = match j.get("op") {
        None => {
            return None;
        },
        Some(v) => match v.as_number() {
            Some(n) => {
                if n > 255 {
                    return None;
                }
                n as u8
            },
            None => {
                return None;
            },
        },
    };
    let s: Option<u64> = match j.get("s") {
        None => None,
        Some(v) => match v {
            Json::Null => None,
            _ => match v.as_number() {
                Some(n) => Some(n),
                None => {
                    return None;
                },
            },
        },
    };
    let d: Option<Json> = match j.get("d") {
        None => None,
        Some(v) => match v {
            Json::Null => None,
            _ => Some(v.clone()),
        },
    };
    match codec::opt_text_of(j, "t") {
        Ok(t) => Some(GatewayPayload { op, d, s, t }),
        Err(_) => None,
    }
}

/// What a frame asks for.
#[derive(Debug, PartialEq, Eq)]
pub enum GatewayAction {
    Nothing,
    /// Send the identification.
    Identify,
    /// Send a heartbeat.
    Heartbeat,
    /// Hand the message to the engine.
    Deliver(Message),
    /// Leave, and connect again.
    Reconnect,
    /// Wait a moment, and send the identification again.
    Reidentify,
}

pub enum ActionView {
    Nothing,
    Identify,
    Heartbeat,
    Deliver(types::MessageView),
    Reconnect,
    Reidentify,
}

impl View for GatewayAction {
    type V = ActionView;

    open spec fn view(&self) -> ActionView {
        match self {
            GatewayAction::Nothing => ActionView::Nothing,
            GatewayAction::Identify => ActionView::Identify,
            GatewayAction::Heartbeat => ActionView::Heartbeat,
            GatewayAction::Deliver(m) => ActionView::Deliver(m@),
            GatewayAction::Reconnect => ActionView::Reconnect,
            GatewayAction::Reidentify => ActionView::Reidentify,
        }
    }
}

/// What is known of the gateway. The sequence number and the bot's id outlive a
/// connection.
#[derive(Debug, PartialEq, Eq)]
pub struct DiscordPlatform {
    pub cfg: DiscordConfig,
    pub bot_user_id: Option<String>,
    pub sequence: u64,
    pub heartbeat_ms: u64,
    pub identified: bool,
}

pub struct GatewayView {
    pub bot_token: Seq<char>,
    pub bot_user_id: Option<Seq<char>>,
    pub sequence: u64,
    pub heartbeat_ms: u64,
    pub identified: bool,
}

/// The bot's id in a `READY` event.
pub open spec fn ready_id(d: json::JsonView) -> Option<Seq<char>> {
    match d.get("user"@) {
        Some(user) => user.get_text("id"@),
        None => None,
    }
}

/// The interval that a greeting asks for.
pub open spec fn hello_interval(d: Option<json::JsonView>, now: u64) -> u64 {
    match d {
        Some(d) => match d.get("heartbeat_interval"@) {
            Some(v) => match v.number() {
                Some(n) => n as u64,
                None => now,
            },
            None => now,
        },
        None => now,
    }
}

/// What a frame changes and what it asks for. The id is learnt once; the bot is
/// identified once per connection.
pub open spec fn gateway_step(g: GatewayView, p: PayloadView) -> (GatewayView, ActionView) {
    let g = match p.s {
        Some(s) => GatewayView { sequence: s, ..g },
        None => g,
    };
    if p.op == 10 {
        let g = GatewayView { heartbeat_ms: hello_interval(p.d, g.heartbeat_ms), ..g };
        if g.identified {
            (g, ActionView::Nothing)
        } else {
            (GatewayView { identified: true, ..g }, ActionView::Identify)
        }
    } else if p.op == 1 {
        (g, ActionView::Heartbeat)
    } else if p.op == 0 {
        if p.t == Some("READY"@) {
            (
                match (p.d, g.bot_user_id) {
                    (Some(d), None) => GatewayView { bot_user_id: ready_id(d), ..g },
                    _ => g,
                },
                ActionView::Nothing,
            )
        } else if p.t == Some("MESSAGE_CREATE"@) {
            (
                g,
                match p.d {
                    Some(d) => match message_of(
                        d,
                        match g.bot_user_id {
                            Some(id) => id,
                            None => Seq::empty(),
                        },
                    ) {
                        Some(m) => ActionView::Deliver(m),
                        None => ActionView::Nothing,
                    },
                    None => ActionView::Nothing,
                },
            )
        } else {
            (g, ActionView::Nothing)
        }
    } else if p.op == 7 {
        (g, ActionView::Reconnect)
    } else if p.op == 9 {
        (g, ActionView::Reidentify)
    } else {
        (g, ActionView::Nothing)
    }
}

/// The body that identifies the bot: it wants guilds, guild messages, direct
/// messages and message contents.
pub open spec fn identify_json(token: Seq<char>) -> json::JsonView {
    json::JsonView::Object(
        seq![
            ("op"@, json::int_json(2)),
            (
                "d"@,
                json::JsonView::Object(
                    seq![
                        ("token"@, json::JsonView::Str(token)),
                        ("intents"@, json::int_json(37377)),
                        (
                            "properties"@,
                            json::JsonView::Object(
                                seq![
                                    ("os"@, json::JsonView::Str("linux"@)),
                                    ("browser"@, json::JsonView::Str("ai-agent-bridge"@)),
                                    ("device"@, json::JsonView::Str("ai-agent-bridge"@)),
                                ],
                            ),
                        ),
                    ],
                ),
            ),
        ],
    )
}

/// The heartbeat: the last sequence number.
pub open spec fn heartbeat_json(sequence: u64) -> json::JsonView {
    json::JsonView::Object(
        seq![("op"@, json::int_json(1)), ("d"@, json::int_json(sequence as int))],
    )
}

impl DiscordPlatform {
    /// What is known of the gateway.
    pub open spec fn gateway(&self) -> GatewayView {
        GatewayView {
            bot_token: self.cfg.bot_token@,
            bot_user_id: text::opt_text(self.bot_user_id),
            sequence: self.sequence,
            heartbeat_ms: self.heartbeat_ms,
            identified: self.identified,
        }
    }

    pub fn new(cfg: DiscordConfig) -> (r: DiscordPlatform)
        ensures
            r.cfg == cfg,
            r.gateway() == (GatewayView {
                bot_token: cfg.bot_token@,
                bot_user_id: None,
                sequence: 0,
                heartbeat_ms: 41_000,
                identified: false,
            }),
    {
        DiscordPlatform {
            cfg,
            bot_user_id: None,
            sequence: 0,
            heartbeat_ms: 41_000,
            identified: false,
        }
    }

    pub fn name(&self) -> (r: &'static str)
        ensures
            r@ == "discord"@,
    {
        "discord"
    }

    /// A new connection: the bot has to identify itself again.
    pub fn connected(&mut self)
        ensures
            final(self).cfg == old(self).cfg,
            final(self).gateway() == (GatewayView {
                heartbeat_ms: 41_000,
                identified: false,
                ..old(self).gateway()
            }),
    {
        self.heartbeat_ms = 41_000;
        self.identified = false;
    }

    fn learn_id(&mut self, d: &Json)
        requires
            old(self).bot_user_id is None,
        ensures
            final(self).cfg == old(self).cfg,
            final(self).gateway() == (GatewayView { bot_user_id: ready_id(d@), ..old(self).gateway() }),
    {
        match d.get("user") {
            Some(user) => {
                self.bot_user_id = user.get_text("id");
            },
            None => {},
        }
    }

    fn greet(&mut self, d: &Option<Json>)
        ensures
            final(self).cfg == old(self).cfg,
            final(self).gateway() == (GatewayView {
                heartbeat_ms: hello_interval(
                    match *d {
                        Some(d) => Some(d@),
                        None => None,
                    },
                    old(self).heartbeat_ms,
                ),
                ..old(self).gateway()
            }),
    {
        match d {
            Some(d) => match d.get("heartbeat_interval") {
                Some(v) => match v.as_number() {
                    Some(n) => {
                        self.heartbeat_ms = n;
                    },
                    None => {},
                },
                None => {},
            },
            None => {},
        }
    }

    /// Takes a frame.
    pub fn on_payload(&mut self, p: GatewayPayload) -> (r: GatewayAction)
        ensures
            final(self).cfg == old(self).cfg,
            (final(self).gateway(), r@) == gateway_step(old(self).gateway(), p@),
    {
        match p.s {
            Some(s) => {
                self.sequence = s;
            },
            None => {},
        }
        let kind: u8 = p.op;
        if kind == 10 {
            self.greet(&p.d);
            if self.identified {
                return GatewayAction::Nothing;
            }
            self.identified = true;
            return GatewayAction::Identify;
        }
        if kind == 1 {
            return GatewayAction::Heartbeat;
        }
        if kind == 7 {
            return GatewayAction::Reconnect;
        }
        if kind == 9 {
            return GatewayAction::Reidentify;
        }
        if kind != 0 {
            return GatewayAction::Nothing;
        }
        let ready: bool = match &p.t {
            Some(t) => text::same(t.as_str(), "READY"),
            None => false,
        };
        let created: bool = match &p.t {
            Some(t) => text::same(t.as_str(), "MESSAGE_CREATE"),
            None => false,
        };
        match &p.d {
            None => GatewayAction::Nothing,
            Some(d) => {
                if ready {
                    if self.bot_user_id.is_none() {
                        self.learn_id(d);
                    }
                    GatewayAction::Nothing
                } else if created {
                    let id: String = match &self.bot_user_id {
                        Some(id) => id.clone(),
                        None => {
                            let empty: String = String::new();
                            assert(empty@ =~= Seq::<char>::empty());
                            empty
                        },
                    };
                    match read_message(d, id.as_str()) {
                        Some(m) => GatewayAction::Deliver(m),
                        None => GatewayAction::Nothing,
                    }
                } else {
                    GatewayAction::Nothing
                }
            },
        }
    }

    /// Takes the text of a frame; one that is none is skipped.
    pub fn on_text(&mut self, raw: &str) -> (r: GatewayAction)
        ensures
            final(self).cfg == old(self).cfg,
            match json::parsed(raw@) {
                Some(j) => match payload_from(j) {
                    Some(p) => (final(self).gateway(), r@) == gateway_step(old(self).gateway(), p),
                    None => r is Nothing && *final(self) == *old(self),
                },
                None => r is Nothing && *final(self) == *old(self),
            },
    {
        match json::parse(raw) {
            Some(j) => match read_payload(&j) {
                Some(p) => self.on_payload(p),
                None => GatewayAction::Nothing,
            },
            None => GatewayAction::Nothing,
        }
    }

    /// The body that identifies the bot.
    pub fn identify_payload(&self) -> (r: Json)
        ensures
            r@ == identify_json(self.cfg.bot_token@),
    {
        let properties: Members = Members::new().with_str("os", "linux").with_str(
            "browser",
            "ai-agent-bridge",
        ).with_str("device", "ai-agent-bridge");
        let ghost inner = properties@;
        let d: Members = Members::new().with_str("token", self.cfg.bot_token.as_str()).with(
            "intents",
            json::count_json(37377),
        ).with("properties", properties.object());
        let ghost middle = d@;
        let m: Members = Members::new().with("op", json::count_json(2)).with("d", d.object());
        proof {
            let want = identify_json(self.cfg.bot_token@)->Object_0;
            let wanted = want[1].1->Object_0;
            assert(inner =~= wanted[2].1->Object_0);
            assert(middle =~= wanted);
            assert(m@ =~= want);
        }
        m.object()
    }

    /// The heartbeat.
    pub fn heartbeat(&self) -> (r: Json)
        ensures
            r@ == heartbeat_json(self.sequence),
    {
        let m: Members = Members::new().with("op", json::count_json(1)).with(
            "d",
            json::count_json(self.sequence),
        );
        assert(m@ =~= heartbeat_json(self.sequence)->Object_0);
        m.object()
    }

    /// The value of the `Authorization` header.
    pub fn auth_header(&self) -> (r: String)
        ensures
            r@ == "Bot "@ + self.cfg.bot_token@,
    {
        text::concat2("Bot ", self.cfg.bot_token.as_str())
    }
}

/// A bot's id does not change once it is known.
pub proof fn bot_id_is_learnt_once(g: GatewayView, p: PayloadView)
    requires
        g.bot_user_id is Some,
    ensures
        gateway_step(g, p).0.bot_user_id == g.bot_user_id,
{
}

/// A connection identifies the bot once, however often it is greeted.
pub proof fn greeting_identifies_once(g: GatewayView, p: PayloadView, q: PayloadView)
    requires
        p.op == 10,
        q.op == 10,
    ensures
        gateway_step(gateway_step(g, p).0, q).1 == ActionView::Nothing,
{
}

// ── Outbound ────────────────────────────────────────────────────────────

/// The address of the gateway, out of the reply of `/gateway/bot`.
pub fn gateway_url(body: &Json) -> (r: Option<String>)
    ensures
        text::opt_text(r) == match body@.get_text("url"@) {
            Some(u) => Some(u + "/?v=10&encoding=json"@),
            None => None,
        },
{
    match body.get_text("url") {
        Some(u) => Some(text::concat2(u.as_str(), "/?v=10&encoding=json")),
        None => None,
    }
}

/// Where messages of a channel are posted.
pub open spec fn messages_url(channel: Seq<char>) -> Seq<char> {
    "https://discord.com/api/v10/channels/"@ + channel + "/messages"@
}

/// A body that posts a text.
pub open spec fn content_json(chunk: Seq<char>) -> json::JsonView {
    json::JsonView::Object(seq![("content"@, json::JsonView::Str(chunk))])
}

/// The bodies that post a text: one for each chunk.
pub open spec fn reply_bodies(t: Seq<char>) -> Seq<json::JsonView> {
    let chunks = split::chunks(split::pieces(t, DISCORD_TEXT_MAX as int));
    Seq::new(chunks.len(), |i: int| content_json(chunks[i]))
}

fn make_content(chunk: &str) -> (r: Json)
    ensures
        r@ == content_json(chunk@),
{
    let m: Members = Members::new().with_str("content", chunk);
    assert(m@ =~= content_json(chunk@)->Object_0);
    m.object()
}

/// Where and how a text is posted.
pub fn reply(ctx: &ReplyCtx, t: &str) -> (r: Result<(String, Vec<Json>), String>)
    ensures
        match (r, text::opt_text(ctx.channel)) {
            (Ok((url, bodies)), Some(channel)) => url@ == messages_url(channel) && json::json_views(
                bodies@,
            ) == reply_bodies(t@),
            (Err(e), None) => e@ == "Discord reply requires channel_id"@,
            _ => false,
        },
{
    let url: String = match post_url(ctx, "/messages") {
        Some(u) => u,
        None => {
            return Err("Discord reply requires channel_id".to_string());
        },
    };
    let chunks: Vec<String> = split::split_text(t, DISCORD_TEXT_MAX);
    let mut bodies: Vec<Json> = Vec::new();
    let mut i: usize = 0;
    while i < chunks.len()
        invariant
            i <= chunks@.len(),
            bodies@.len() == i,
            forall|j: int| 0 <= j < i ==> (#[trigger] bodies@[j])@ == content_json(chunks@[j]@),
        decreases chunks@.len() - i,
    {
        bodies.push(make_content(chunks[i].as_str()));
        i = i + 1;
    }
    proof {
        json::lemma_json_views(bodies@);
        let want = reply_bodies(t@);
        assert(text::texts(chunks@).len() == chunks@.len());
        assert(json::json_views(bodies@) =~= want) by {
            assert forall|j: int| 0 <= j < want.len() implies json::json_views(bodies@)[j]
                == want[j] by {
                assert(text::texts(chunks@)[j] == chunks@[j]@);
                assert(bodies@[j]@ == content_json(chunks@[j]@));
            }
        }
    }
    Ok((url, bodies))
}

/// Where something is posted in the channel of a context.
pub fn post_url(ctx: &ReplyCtx, what: &str) -> (r: Option<String>)
    ensures
        text::opt_text(r) == match text::opt_text(ctx.channel) {
            Some(channel) => Some("https://discord.com/api/v10/channels/"@ + channel + what@),
            None => None,
        },
{
    match &ctx.channel {
        Some(channel) => Some(
            text::concat3("https://discord.com/api/v10/channels/", channel.as_str(), what),
        ),
        None => None,
    }
}

// ── Laws ────────────────────────────────────────────────────────────────

proof fn lemma_starts_at(s: Seq<char>, i: int, k: int)
    requires
        0 <= i <= k,
        k + 2 <= s.len(),
        s[k] == '<',
        s[k + 1] == '@',
        forall|j: int| i <= j < k ==> s[j] != '<',
    ensures
        mention_start(s, i) == Some(k),
    decreases k - i,
{
    if i < k {
        lemma_starts_at(s, i + 1, k);
    }
}

proof fn lemma_ends_at(s: Seq<char>, i: int, k: int)
    requires
        0 <= i <= k < s.len(),
        s[k] == '>',
        forall|j: int| i <= j < k ==> s[j] != '>',
    ensures
        mention_end(s, i) == Some(k),
    decreases k - i,
{
    if i < k {
        lemma_ends_at(s, i + 1, k);
    }
}

/// A mention is taken out whole, and what stands before and behind it is kept.
pub proof fn mentions_are_taken_out(before: Seq<char>, id: Seq<char>, after: Seq<char>)
    requires
        !before.contains('<'),
        !id.contains('>'),
        !after.contains('<'),
    ensures
        without_mentions(before + ("<@"@ + id + ">"@) + after) == before + after,
{
    reveal_strlit("<@");
    reveal_strlit(">");
    let s = before + ("<@"@ + id + ">"@) + after;
    let k = before.len() as int;
    let e = k + 2 + id.len();
    assert(s[k] == '<' && s[k + 1] == '@' && s[e] == '>');
    assert forall|j: int| 0 <= j < k implies s[j] != '<' by {
        assert(s[j] == before[j]);
    }
    lemma_starts_at(s, 0, k);
    assert forall|j: int| k <= j < e implies s[j] != '>' by {
        if j >= k + 2 {
            assert(s[j] == id[j - k - 2]);
        }
    }
    lemma_ends_at(s, k, e);
    let rest = before + after;
    assert(s.take(k) + s.skip(e + 1) =~= rest);
    assert forall|j: int| 0 <= j < rest.len() implies rest[j] != '<' by {
        if j < before.len() {
            assert(rest[j] == before[j]);
        } else {
            assert(rest[j] == after[j - before.len()]);
        }
    }
    lemma_mention_start(rest, 0);
    assert(mention_start(rest, 0) is None);
    assert(without_mentions(rest) == rest);
}

/// In a guild the bot answers whoever mentions it, with the text round the mention,
/// in the conversation of that user in that channel.
pub proof fn guild_mention_is_answered(
    d: json::JsonView,
    author: json::JsonView,
    channel: Seq<char>,
    id: Seq<char>,
    bot_id: Seq<char>,
    before: Seq<char>,
    after: Seq<char>,
)
    requires
        d.get("author"@) == Some(author),
        author.get("bot"@) is None || author.get("bot"@) == Some(json::JsonView::Bool(false)),
        d.get_text("channel_id"@) == Some(channel),
        author.get_text("id"@) == Some(id),
        d.get_text("content"@) == Some(before + ("<@"@ + bot_id + ">"@) + after),
        !before.contains('<'),
        !bot_id.contains('>'),
        !after.contains('<'),
        text::trim(before + after).len() > 0,
    ensures
        message_of(d, bot_id) == Some(
            types::MessageView {
                key: "discord"@ + ":"@ + (channel + "/"@ + id),
                text: text::trim(before + after),
                attachments: Seq::empty(),
                reply_ctx: types::ReplyCtxView {
                    channel: Some(channel),
                    thread: None,
                    user: Some(id),
                    extra: json::JsonView::Null,
                },
                timestamp_ms: 0,
            },
        ),
{
    let m = "<@"@ + bot_id + ">"@;
    let s = before + m + after;
    mentions_are_taken_out(before, bot_id, after);
    let k = before.len() as int;
    assert(s.subrange(k, k + m.len()) =~= m);
    assert(text::occurs_at(s, m, k));
}

/// What the gateway says is done: a greeting is answered by identifying, a request by
/// a heartbeat, a message is delivered, and the other two start over. The number of
/// the last event is kept.
pub proof fn gateway_is_obeyed(g: GatewayView, p: PayloadView, d: json::JsonView, s: u64, id: Seq<char>)
    requires
        p.d == Some(d),
    ensures
        p.op == 10 && !g.identified ==> gateway_step(g, p).1 == ActionView::Identify,
        p.op == 10 ==> gateway_step(g, p).0.identified,
        p.op == 1 ==> gateway_step(g, p).1 == ActionView::Heartbeat,
        p.op == 7 ==> gateway_step(g, p).1 == ActionView::Reconnect,
        p.op == 9 ==> gateway_step(g, p).1 == ActionView::Reidentify,
        p.op != 10 && p.op != 1 && p.op != 0 && p.op != 7 && p.op != 9 ==> gateway_step(g, p).1
            == ActionView::Nothing,
        p.s == Some(s) ==> gateway_step(g, p).0.sequence == s,
        p.s is None ==> gateway_step(g, p).0.sequence == g.sequence,
        p.op != 10 ==> gateway_step(g, p).0.identified == g.identified && gateway_step(
            g,
            p,
        ).0.heartbeat_ms == g.heartbeat_ms,
        p.op == 0 && p.t == Some("MESSAGE_CREATE"@) && g.bot_user_id == Some(id) ==> gateway_step(
            g,
            p,
        ).1 == (match message_of(d, id) {
            Some(m) => ActionView::Deliver(m),
            None => ActionView::Nothing,
        }),
        gateway_step(g, p).0.bot_token == g.bot_token,
{
    reveal_strlit("READY");
    reveal_strlit("MESSAGE_CREATE");
    assert("READY"@.len() == 5 && "MESSAGE_CREATE"@.len() == 14);
}

/// A greeting says how often the heart beats, and the first event who the bot is.
pub proof fn gateway_tells_interval_and_id(
    g: GatewayView,
    p: PayloadView,
    d: json::JsonView,
    user: json::JsonView,
    id: Seq<char>,
    ms: u64,
)
    requires
        p.d == Some(d),
    ensures
        p.op == 10 && d.get("heartbeat_interval"@) == Some(json::int_json(ms as int))
            ==> gateway_step(g, p).0.heartbeat_ms == ms,
        p.op == 0 && p.t == Some("READY"@) && g.bot_user_id is None && d.get("user"@) == Some(user)
            && user.get("id"@) == Some(json::JsonView::Str(id)) ==> gateway_step(
            g,
            p,
        ).0.bot_user_id == Some(id),
        p.op == 0 && p.t == Some("READY"@) ==> gateway_step(g, p).1 == ActionView::Nothing,
{
    text::decimal_reads_back(ms as nat);
}

/// A payload is read with its code, its data, its number and its name.
pub proof fn payloads_are_read(
    j: json::JsonView,
    op: u8,
    d: json::JsonView,
    s: u64,
    t: Seq<char>,
)
    requires
        j is Object,
        j.get("op"@) == Some(json::int_json(op as int)),
        j.get("d"@) == Some(d),
        !(d is Null),
    ensures
        j.get("s"@) == Some(json::int_json(s as int)) && j.get("t"@) == Some(
            json::JsonView::Str(t),
        ) ==> payload_from(j) == Some(PayloadView { op, d: Some(d), s: Some(s), t: Some(t) }),
        j.get("s"@) is None && j.get("t"@) is None ==> payload_from(j) == Some(
            PayloadView { op, d: Some(d), s: None, t: None },
        ),
{
    text::decimal_reads_back(op as nat);
    text::decimal_reads_back(s as nat);
}

/// The bot identifies with its token, and a heartbeat carries the number of the last
/// event.
pub proof fn bot_identifies_with_its_token(token: Seq<char>, s: u64)
    ensures
        identify_json(token) == json::JsonView::Object(
            seq![
                ("op"@, json::JsonView::Number(text::integer(2))),
                (
                    "d"@,
                    json::JsonView::Object(
                        seq![
                            ("token"@, json::JsonView::Str(token)),
                            ("intents"@, json::JsonView::Number(text::integer(37377))),
                            (
                                "properties"@,
                                json::JsonView::Object(
                                    seq![
                                        ("os"@, json::JsonView::Str("linux"@)),
                                        ("browser"@, json::JsonView::Str("ai-agent-bridge"@)),
                                        ("device"@, json::JsonView::Str("ai-agent-bridge"@)),
                                    ],
                                ),
                            ),
                        ],
                    ),
                ),
            ],
        ),
        heartbeat_json(s) == json::JsonView::Object(
            seq![
                ("op"@, json::JsonView::Number(text::integer(1))),
                ("d"@, json::JsonView::Number(text::integer(s as int))),
            ],
        ),
{
}

/// A reply that fits is one message with the whole text; a longer one is several, in
/// order, each of which fits.
pub proof fn replies_fit(t: Seq<char>, i: int)
    ensures
        split::byte_len(t) <= 2000 ==> reply_bodies(t) == seq![
            json::JsonView::Object(seq![("content"@, json::JsonView::Str(t))]),
        ],
        reply_bodies(t).len() == split::pieces(t, 2000).len(),
        0 <= i < split::pieces(t, 2000).len() ==> reply_bodies(t)[i] == json::JsonView::Object(
            seq![("content"@, json::JsonView::Str(split::pieces(t, 2000)[i].0))],
        ) && split::byte_len(split::pieces(t, 2000)[i].0) <= 2000,
{
    split::pieces_keep_the_text(t, 2000);
    if split::byte_len(t) <= 2000 {
        split::short_text_is_one_chunk(t, 2000);
        assert(reply_bodies(t) =~= seq![content_json(t)]);
    }
}

/// Messages go to the channel they are for; a lost connection is tried again after
/// five seconds, a refused one after three.
pub proof fn messages_go_to_their_channel(channel: Seq<char>)
    ensures
        messages_url(channel) == "https://discord.com/api/v10/channels/"@ + channel + "/messages"@,
        RECONNECT_MS == 5_000,
        REIDENTIFY_MS == 3_000,
{
}

} // verus!
