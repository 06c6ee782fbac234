//! The JSON forms of schedules, reply contexts and events.

use vstd::prelude::*;
use vstd::string::*;

use crate::json;
use crate::json::{Json, Members};
use crate::schedule::ScheduleKind;
use crate::text;
use crate::types;
use crate::types::{Attachment, AttachmentKind, Event, PermissionRequest, ReplyCtx};

verus! {

// ── Schedules ───────────────────────────────────────────────────────────

/// The stored form of a schedule.
pub open spec fn kind_json(k: ScheduleKind) -> json::JsonView {
    match k {
        ScheduleKind::Once { fire_at_ms } => json::JsonView::Object(
            seq![
                ("fire_at_ms"@, json::int_json(fire_at_ms as int)),
                ("kind"@, json::JsonView::Str("once"@)),
            ],
        ),
        ScheduleKind::Recurring { interval_ms, next_fire_ms } => json::JsonView::Object(
            seq![
                ("interval_ms"@, json::int_json(interval_ms as int)),
                ("kind"@, json::JsonView::Str("recurring"@)),
                ("next_fire_ms"@, json::int_json(next_fire_ms as int)),
            ],
        ),
    }
}

/// The integer of the member of that name.
pub open spec fn integer_at(j: json::JsonView, key: Seq<char>) -> Option<i64> {
    match j.get(key) {
        Some(v) => v.integer(),
        None => None,
    }
}

/// The unsigned integer of the member of that name.
pub open spec fn number_at(j: json::JsonView, key: Seq<char>) -> Option<nat> {
    match j.get(key) {
        Some(v) => v.number(),
        None => None,
    }
}

/// The schedule that a stored form stands for.
pub open spec fn kind_from(j: json::JsonView) -> Option<ScheduleKind> {
    if json::plain_tag(j, "kind"@) == Some("once"@) {
        match integer_at(json::as_variant(j, seq!["fire_at_ms"@], 1), "fire_at_ms"@) {
            Some(t) => Some(ScheduleKind::Once { fire_at_ms: t }),
            None => None,
        }
    } else if json::plain_tag(j, "kind"@) == Some("recurring"@) {
        let j = json::as_variant(j, seq!["interval_ms"@, "next_fire_ms"@], 2);
        match (number_at(j, "interval_ms"@), integer_at(j, "next_fire_ms"@)) {
            (Some(n), Some(t)) => Some(
                ScheduleKind::Recurring { interval_ms: n as u64, next_fire_ms: t },
            ),
            _ => None,
        }
    } else {
        None
    }
}

/// The stored form of a schedule.
pub fn kind_to_json(k: &ScheduleKind) -> (r: Json)
    ensures
        r@ == kind_json(*k),
{
    let m: Members = match k {
        ScheduleKind::Once { fire_at_ms } => Members::new().with(
            "fire_at_ms",
            json::number_json(*fire_at_ms),
        ).with_str("kind", "once"),
        ScheduleKind::Recurring { interval_ms, next_fire_ms } => Members::new().with(
            "interval_ms",
            json::count_json(*interval_ms),
        ).with_str("kind", "recurring").with("next_fire_ms", json::number_json(*next_fire_ms)),
    };
    assert(m@ =~= kind_json(*k)->Object_0);
    m.object()
}

/// The schedule that a stored form stands for.
pub fn kind_of_json(j: &Json) -> (r: Option<ScheduleKind>)
    ensures
        r == kind_from(j@),
{
    let kind: String = match j.plain_tag("kind") {
        Some(k) => k,
        None => {
            return None;
        },
    };
    if text::same(kind.as_str(), "once") {
        let names: Vec<&str> = vec!["fire_at_ms"];
        assert(json::strs(names@) =~= seq!["fire_at_ms"@]);
        let j: &Json = &j.as_variant(&names, 1);
        match j.get("fire_at_ms") {
            Some(t) => match t.as_integer() {
                Some(t) => Some(ScheduleKind::Once { fire_at_ms: t }),
                None => None,
            },
            None => None,
        }
    } else if text::same(kind.as_str(), "recurring") {
        let names: Vec<&str> = vec!["interval_ms", "next_fire_ms"];
        assert(json::strs(names@) =~= seq!["interval_ms"@, "next_fire_ms"@]);
        let j: &Json = &j.as_variant(&names, 2);
        let n: Option<u64> = match j.get("interval_ms") {
            Some(n) => n.as_number(),
            None => None,
        };
        let t: Option<i64> = match j.get("next_fire_ms") {
            Some(t) => t.as_integer(),
            None => None,
        };
        match (n, t) {
            (Some(n), Some(t)) => Some(
                ScheduleKind::Recurring { interval_ms: n, next_fire_ms: t },
            ),
            _ => None,
        }
    } else {
        None
    }
}

proof fn lemma_int_json(i: int)
    requires
        i64::MIN <= i <= u64::MAX,
    ensures
        json::canonical(json::int_json(i), 0),
        i <= i64::MAX ==> json::int_json(i).integer() == Some(i as i64),
        i >= 0 ==> json::int_json(i).number() == Some(i as nat),
{
    text::integer_reads_back(i);
    if i >= 0 {
        text::decimal_reads_back(i as nat);
    }
}

proof fn lemma_canonical_deeper(j: json::JsonView, a: nat, b: nat)
    requires
        json::canonical(j, a),
        a <= b,
    ensures
        json::canonical(j, b),
    decreases a,
{
    match j {
        json::JsonView::Array(v) => {
            assert forall|i: int| 0 <= i < v.len() implies json::canonical(
                #[trigger] v[i],
                (b - 1) as nat,
            ) by {
                lemma_canonical_deeper(v[i], (a - 1) as nat, (b - 1) as nat);
            }
        },
        json::JsonView::Object(o) => {
            assert forall|i: int| 0 <= i < o.len() implies json::canonical(
                (#[trigger] o[i]).1,
                (b - 1) as nat,
            ) by {
                lemma_canonical_deeper(o[i].1, (a - 1) as nat, (b - 1) as nat);
            }
        },
        _ => {},
    }
}

/// A schedule is what its stored form stands for, and that form survives
/// being written and read.
pub proof fn stored_schedule_reads_back(k: ScheduleKind)
    ensures
        kind_from(kind_json(k)) == Some(k),
        json::canonical(kind_json(k), 100),
{
    reveal_strlit("fire_at_ms");
    reveal_strlit("interval_ms");
    reveal_strlit("kind");
    reveal_strlit("next_fire_ms");
    reveal_strlit("once");
    reveal_strlit("recurring");
    reveal_with_fuel(json::member, 4);
    match k {
        ScheduleKind::Once { fire_at_ms } => {
            lemma_int_json(fire_at_ms as int);
            lemma_canonical_deeper(json::int_json(fire_at_ms as int), 0, 99);
            let o = kind_json(k)->Object_0;
            assert("fire_at_ms"@[0] != "kind"@[0]);
            assert(o.drop_first()[0] == o[1]);
            assert(text::before(o[0].0, o[1].0));
            assert(json::canonical(o[1].1, 99));
        },
        ScheduleKind::Recurring { interval_ms, next_fire_ms } => {
            lemma_int_json(interval_ms as int);
            lemma_int_json(next_fire_ms as int);
            lemma_canonical_deeper(json::int_json(interval_ms as int), 0, 99);
            lemma_canonical_deeper(json::int_json(next_fire_ms as int), 0, 99);
            let o = kind_json(k)->Object_0;
            assert("interval_ms"@[0] != "kind"@[0]);
            assert("interval_ms"@[0] != "next_fire_ms"@[0]);
            assert("kind"@[0] != "next_fire_ms"@[0]);
            assert("once"@.len() != "recurring"@.len());
            assert(o.drop_first()[0] == o[1]);
            assert(o.drop_first().drop_first()[0] == o[2]);
            assert(text::before(o[0].0, o[1].0));
            assert(text::before(o[0].0, o[2].0));
            assert(text::before(o[1].0, o[2].0));
            assert(json::canonical(o[1].1, 99));
        },
    }
}

// ── Reply contexts ──────────────────────────────────────────────────────

/// The stored form of a reply context.
pub open spec fn ctx_json(c: types::ReplyCtxView) -> json::JsonView {
    json::JsonView::Object(
        seq![
            ("channel"@, json::opt_str_json(c.channel)),
            ("extra"@, c.extra),
            ("thread"@, json::opt_str_json(c.thread)),
            ("user"@, json::opt_str_json(c.user)),
        ],
    )
}

/// An optional text: absent or null, or a string. Anything else is an error.
pub open spec fn opt_text_at(j: json::JsonView, key: Seq<char>) -> Result<
    Option<Seq<char>>,
    (),
> {
    match j.get(key) {
        None => Ok(None),
        Some(json::JsonView::Null) => Ok(None),
        Some(json::JsonView::Str(s)) => Ok(Some(s)),
        Some(_) => Err(()),
    }
}

/// The fields of a reply context.
pub open spec fn ctx_fields() -> Seq<Seq<char>> {
    seq!["channel"@, "thread"@, "user"@, "extra"@]
}

/// The reply context that a stored form stands for.
pub open spec fn ctx_from(j: json::JsonView) -> Option<types::ReplyCtxView> {
    let j = json::as_struct(j, ctx_fields(), 3);
    if !(j is Object) {
        None
    } else {
        match (opt_text_at(j, "channel"@), opt_text_at(j, "thread"@), opt_text_at(j, "user"@)) {
            (Ok(channel), Ok(thread), Ok(user)) => Some(
                types::ReplyCtxView {
                    channel,
                    thread,
                    user,
                    extra: match j.get("extra"@) {
                        Some(e) => e,
                        None => json::JsonView::Null,
                    },
                },
            ),
            _ => None,
        }
    }
}

/// The stored form of a reply context.
pub fn ctx_to_json(c: &ReplyCtx) -> (r: Json)
    ensures
        r@ == ctx_json(c@),
{
    let m: Members = Members::new().with("channel", json::opt_json(&c.channel)).with(
        "extra",
        c.extra.clone(),
    ).with("thread", json::opt_json(&c.thread)).with("user", json::opt_json(&c.user));
    assert(m@ =~= ctx_json(c@)->Object_0);
    m.object()
}

/// An optional text: absent or null, or a string.
pub fn opt_text_of(j: &Json, key: &str) -> (r: Result<Option<String>, ()>)
    ensures
        match r {
            Ok(t) => opt_text_at(j@, key@) == Ok::<Option<Seq<char>>, ()>(text::opt_text(t)),
            Err(()) => opt_text_at(j@, key@) is Err,
        },
{
    match j.get(key) {
        None => Ok(None),
        Some(v) => match v {
            Json::Null => Ok(None),
            Json::Str(s) => Ok(Some(s.clone())),
            _ => Err(()),
        },
    }
}

/// The reply context that a stored form stands for.
pub fn ctx_of_json(j: &Json) -> (r: Option<ReplyCtx>)
    ensures
        match r {
            Some(c) => ctx_from(j@) == Some(c@),
            None => ctx_from(j@) is None,
        },
{
    let names: Vec<&str> = vec!["channel", "thread", "user", "extra"];
    assert(json::strs(names@) =~= ctx_fields());
    let j: &Json = &j.as_struct(&names, 3);
    let object: bool = match j {
        Json::Object(_) => true,
        _ => false,
    };
    if !object {
        return None;
    }
    let extra: Json = match j.get("extra") {
        Some(e) => e.clone(),
        None => Json::Null,
    };
    match (opt_text_of(j, "channel"), opt_text_of(j, "thread"), opt_text_of(j, "user")) {
        (Ok(channel), Ok(thread), Ok(user)) => Some(ReplyCtx { channel, thread, user, extra }),
        _ => None,
    }
}

/// A reply context is what its stored form stands for; the form survives being
/// written and read if the extras do.
pub proof fn stored_context_reads_back(c: types::ReplyCtxView)
    ensures
        ctx_from(ctx_json(c)) == Some(c),
        json::canonical(c.extra, 99) ==> json::canonical(ctx_json(c), 100),
{
    reveal_strlit("channel");
    reveal_strlit("extra");
    reveal_strlit("thread");
    reveal_strlit("user");
    reveal_with_fuel(json::member, 5);
    let o = ctx_json(c)->Object_0;
    assert("channel"@[0] == 'c' && "extra"@[0] == 'e' && "thread"@[0] == 't' && "user"@[0] == 'u');
    assert(o.drop_first()[0] == o[1]);
    assert(o.drop_first().drop_first()[0] == o[2]);
    assert(o.drop_first().drop_first().drop_first()[0] == o[3]);
    if json::canonical(c.extra, 99) {
        assert forall|i: int, j: int| 0 <= i < j < o.len() implies text::before(
            (#[trigger] o[i]).0,
            (#[trigger] o[j]).0,
        ) by {
            assert(o[i].0[0] < o[j].0[0]);
        }
        assert forall|i: int| 0 <= i < o.len() implies json::canonical(
            (#[trigger] o[i]).1,
            99,
        ) by {}
    }
}

/// An optional count: absent or null, or a number without a sign.
pub open spec fn opt_count_at(j: json::JsonView, key: Seq<char>) -> Result<Option<u64>, ()> {
    match j.get(key) {
        None => Ok(None),
        Some(json::JsonView::Null) => Ok(None),
        Some(v) => match v.number() {
            Some(n) => Ok(Some(n as u64)),
            None => Err(()),
        },
    }
}

/// An optional count: absent or null, or a number without a sign.
pub fn opt_count_of(j: &Json, key: &str) -> (r: Result<Option<u64>, ()>)
    ensures
        r == opt_count_at(j@, key@),
{
    match j.get(key) {
        None => Ok(None),
        Some(v) => match v {
            Json::Null => Ok(None),
            _ => match v.as_number() {
                Some(n) => Ok(Some(n)),
                None => Err(()),
            },
        },
    }
}

// ── Events ──────────────────────────────────────────────────────────────

/// The name of a kind of attachment.
pub open spec fn kind_name(k: AttachmentKind) -> Seq<char> {
    match k {
        AttachmentKind::Image => "image"@,
        AttachmentKind::File => "file"@,
        AttachmentKind::Audio => "audio"@,
    }
}

/// A JSON number, or null where there is none.
pub open spec fn opt_count_json(n: Option<u64>) -> json::JsonView {
    match n {
        Some(n) => json::int_json(n as int),
        None => json::JsonView::Null,
    }
}

/// The JSON form of a permission request.
pub open spec fn permission_json(p: types::PermissionView) -> json::JsonView {
    json::JsonView::Object(
        seq![
            ("id"@, json::JsonView::Str(p.id)),
            ("tool_name"@, json::JsonView::Str(p.tool_name)),
            ("description"@, json::JsonView::Str(p.description)),
            ("input"@, p.input),
        ],
    )
}

/// The fields of a permission request.
pub open spec fn permission_fields() -> Seq<Seq<char>> {
    seq!["id"@, "tool_name"@, "description"@, "input"@]
}

/// The permission request that a JSON form stands for. The input may be absent.
pub open spec fn permission_from(j: json::JsonView) -> Option<types::PermissionView> {
    let j = json::as_struct(j, permission_fields(), 3);
    match (j.get_text("id"@), j.get_text("tool_name"@), j.get_text("description"@)) {
        (Some(id), Some(tool_name), Some(description)) => Some(
            types::PermissionView {
                id,
                tool_name,
                description,
                input: match j.get("input"@) {
                    Some(v) => v,
                    None => json::JsonView::Null,
                },
            },
        ),
        _ => None,
    }
}

/// The JSON form of a permission request.
pub fn permission_to_json(p: &PermissionRequest) -> (r: Json)
    ensures
        r@ == permission_json(p@),
{
    let m: Members = Members::new().with_str("id", p.id.as_str()).with_str(
        "tool_name",
        p.tool_name.as_str(),
    ).with_str("description", p.description.as_str()).with("input", p.input.clone());
    assert(m@ =~= permission_json(p@)->Object_0);
    m.object()
}

/// The permission request that a JSON form stands for.
pub fn permission_of_json(j: &Json) -> (r: Option<PermissionRequest>)
    ensures
        match r {
            Some(p) => permission_from(j@) == Some(p@),
            None => permission_from(j@) is None,
        },
{
    let names: Vec<&str> = vec!["id", "tool_name", "description", "input"];
    assert(json::strs(names@) =~= permission_fields());
    let j: &Json = &j.as_struct(&names, 3);
    match (j.get_text("id"), j.get_text("tool_name"), j.get_text("description")) {
        (Some(id), Some(tool_name), Some(description)) => Some(
            PermissionRequest {
                id,
                tool_name,
                description,
                input: match j.get("input") {
                    Some(v) => v.clone(),
                    None => Json::Null,
                },
            },
        ),
        _ => None,
    }
}

/// The JSON form of an event: its members, after its type. A bare error has
/// none, since it has no members.
pub open spec fn event_json(e: types::EventView) -> Option<json::JsonView> {
    match e {
        types::EventView::AssistantText { text, partial } => Some(
            json::JsonView::Object(
                seq![
                    ("type"@, json::JsonView::Str("assistant_text"@)),
                    ("text"@, json::JsonView::Str(text)),
                    ("partial"@, json::JsonView::Bool(partial)),
                ],
            ),
        ),
        types::EventView::AssistantAttachment(a) => Some(
            json::JsonView::Object(
                seq![
                    ("type"@, json::JsonView::Str("assistant_attachment"@)),
                    ("kind"@, json::JsonView::Str(kind_name(a.kind))),
                    ("path"@, json::JsonView::Str(a.path)),
                    ("mime"@, json::JsonView::Str(a.mime)),
                    ("bytes"@, opt_count_json(a.bytes)),
                    ("name"@, json::opt_str_json(a.name)),
                ],
            ),
        ),
        types::EventView::PermissionRequest(p) => Some(
            json::JsonView::Object(
                seq![("type"@, json::JsonView::Str("permission_request"@))]
                    + permission_json(p)->Object_0,
            ),
        ),
        types::EventView::ToolStart { name, id } => Some(
            json::JsonView::Object(
                seq![
                    ("type"@, json::JsonView::Str("tool_start"@)),
                    ("name"@, json::JsonView::Str(name)),
                    ("id"@, json::JsonView::Str(id)),
                ],
            ),
        ),
        types::EventView::ToolEnd { id, ok } => Some(
            json::JsonView::Object(
                seq![
                    ("type"@, json::JsonView::Str("tool_end"@)),
                    ("id"@, json::JsonView::Str(id)),
                    ("ok"@, json::JsonView::Bool(ok)),
                ],
            ),
        ),
        types::EventView::Error(_) => None,
        types::EventView::Done { session_id } => Some(
            json::JsonView::Object(
                seq![
                    ("type"@, json::JsonView::Str("done"@)),
                    ("session_id"@, json::JsonView::Str(session_id)),
                ],
            ),
        ),
    }
}

/// The truth value of the member of that name.
pub open spec fn truth_at(j: json::JsonView, key: Seq<char>) -> Option<bool> {
    match j.get(key) {
        Some(b) => b.truth(),
        None => None,
    }
}

/// The kind of attachment of a name.
pub open spec fn kind_named(name: Seq<char>) -> Option<AttachmentKind> {
    if name == "image"@ {
        Some(AttachmentKind::Image)
    } else if name == "file"@ {
        Some(AttachmentKind::File)
    } else if name == "audio"@ {
        Some(AttachmentKind::Audio)
    } else {
        None
    }
}

/// The fields of an attachment.
pub open spec fn attachment_fields() -> Seq<Seq<char>> {
    seq!["kind"@, "path"@, "mime"@, "bytes"@, "name"@]
}

/// The kind of attachment that a value names: by a text, or by the name of a lone
/// member that is null.
pub open spec fn kind_at(j: json::JsonView) -> Option<AttachmentKind> {
    match j.get("kind"@) {
        Some(json::JsonView::Str(k)) => kind_named(k),
        Some(json::JsonView::Object(o)) => if o.len() == 1 && o[0].1 is Null {
            kind_named(o[0].0)
        } else {
            None
        },
        _ => None,
    }
}

/// The attachment that a JSON form stands for.
pub open spec fn attachment_from(j: json::JsonView) -> Option<types::AttachmentView> {
    let kind = kind_at(j);
    match (
        kind,
        j.get_text("path"@),
        j.get_text("mime"@),
        opt_count_at(j, "bytes"@),
        opt_text_at(j, "name"@),
    ) {
        (Some(kind), Some(path), Some(mime), Ok(bytes), Ok(name)) => Some(
            types::AttachmentView { kind, path, mime, bytes, name },
        ),
        _ => None,
    }
}

/// The event that a JSON form stands for.
pub open spec fn event_from(j: json::JsonView) -> Option<types::EventView> {
    match json::plain_tag(j, "type"@) {
        None => None,
        Some(t) => if t == "assistant_text"@ {
            let j = json::as_variant(j, seq!["text"@, "partial"@], 2);
            match (j.get_text("text"@), truth_at(j, "partial"@)) {
                (Some(text), Some(partial)) => Some(
                    types::EventView::AssistantText { text, partial },
                ),
                _ => None,
            }
        } else if t == "assistant_attachment"@ {
            match attachment_from(json::as_variant(j, attachment_fields(), 4)) {
                Some(a) => Some(types::EventView::AssistantAttachment(a)),
                None => None,
            }
        } else if t == "permission_request"@ {
            match permission_from(json::as_variant(j, permission_fields(), 3)) {
                Some(p) => Some(types::EventView::PermissionRequest(p)),
                None => None,
            }
        } else if t == "tool_start"@ {
            let j = json::as_variant(j, seq!["name"@, "id"@], 2);
            match (j.get_text("name"@), j.get_text("id"@)) {
                (Some(name), Some(id)) => Some(types::EventView::ToolStart { name, id }),
                _ => None,
            }
        } else if t == "tool_end"@ {
            let j = json::as_variant(j, seq!["id"@, "ok"@], 2);
            match (j.get_text("id"@), truth_at(j, "ok"@)) {
                (Some(id), Some(ok)) => Some(types::EventView::ToolEnd { id, ok }),
                _ => None,
            }
        } else if t == "done"@ {
            let j = json::as_variant(j, seq!["session_id"@], 1);
            match j.get_text("session_id"@) {
                Some(session_id) => Some(types::EventView::Done { session_id }),
                None => None,
            }
        } else {
            None
        },
    }
}

fn attachment_to_json(a: &Attachment) -> (r: Json)
    ensures
        Some(r@) == event_json(types::EventView::AssistantAttachment(a@)),
{
    let kind: &str = match a.kind {
        AttachmentKind::Image => "image",
        AttachmentKind::File => "file",
        AttachmentKind::Audio => "audio",
    };
    let bytes: Json = match a.bytes {
        Some(n) => json::count_json(n),
        None => Json::Null,
    };
    let m: Members = Members::new().with_str("type", "assistant_attachment").with_str(
        "kind",
        kind,
    ).with_str("path", a.path.as_str()).with_str("mime", a.mime.as_str()).with(
        "bytes",
        bytes,
    ).with("name", json::opt_json(&a.name));
    assert(m@ =~= event_json(types::EventView::AssistantAttachment(a@))->Some_0->Object_0);
    m.object()
}

/// The JSON form of an event.
pub fn event_to_json(e: &Event) -> (r: Option<Json>)
    ensures
        match r {
            Some(j) => event_json(e@) == Some(j@),
            None => event_json(e@) is None,
        },
{
    let m: Members = match e {
        Event::AssistantText { text, partial } => Members::new().with_str(
            "type",
            "assistant_text",
        ).with_str("text", text.as_str()).with("partial", Json::Bool(*partial)),
        Event::AssistantAttachment(a) => {
            return Some(attachment_to_json(a));
        },
        Event::PermissionRequest(p) => Members::new().with_str(
            "type",
            "permission_request",
        ).with_str("id", p.id.as_str()).with_str("tool_name", p.tool_name.as_str()).with_str(
            "description",
            p.description.as_str(),
        ).with("input", p.input.clone()),
        Event::ToolStart { name, id } => Members::new().with_str("type", "tool_start").with_str(
            "name",
            name.as_str(),
        ).with_str("id", id.as_str()),
        Event::ToolEnd { id, ok } => Members::new().with_str("type", "tool_end").with_str(
            "id",
            id.as_str(),
        ).with("ok", Json::Bool(*ok)),
        Event::Error(_) => {
            return None;
        },
        Event::Done { session_id } => Members::new().with_str("type", "done").with_str(
            "session_id",
            session_id.as_str(),
        ),
    };
    assert(m@ =~= event_json(e@)->Some_0->Object_0);
    Some(m.object())
}

fn truth_of(j: &Json, key: &str) -> (r: Option<bool>)
    ensures
        r == truth_at(j@, key@),
{
    match j.get(key) {
        Some(b) => b.as_bool(),
        None => None,
    }
}

fn kind_of_name(k: &str) -> (r: Option<AttachmentKind>)
    ensures
        r == kind_named(k@),
{
    if text::same(k, "image") {
        Some(AttachmentKind::Image)
    } else if text::same(k, "file") {
        Some(AttachmentKind::File)
    } else if text::same(k, "audio") {
        Some(AttachmentKind::Audio)
    } else {
        None
    }
}

fn kind_of(j: &Json) -> (r: Option<AttachmentKind>)
    ensures
        r == kind_at(j@),
{
    match j.get("kind") {
        None => None,
        Some(v) => match v {
            Json::Str(k) => kind_of_name(k.as_str()),
            Json::Object(o) => {
                proof {
                    json::lemma_member_views(o@);
                }
                if o.len() != 1 {
                    return None;
                }
                match &o[0].1 {
                    Json::Null => kind_of_name(o[0].0.as_str()),
                    _ => None,
                }
            },
            _ => None,
        },
    }
}

fn attachment_of_json(j: &Json) -> (r: Option<Attachment>)
    ensures
        match r {
            Some(a) => attachment_from(j@) == Some(a@),
            None => attachment_from(j@) is None,
        },
{
    let kind: AttachmentKind = match kind_of(j) {
        Some(k) => k,
        None => {
            return None;
        },
    };
    match (
        j.get_text("path"),
        j.get_text("mime"),
        opt_count_of(j, "bytes"),
        opt_text_of(j, "name"),
    ) {
        (Some(path), Some(mime), Ok(bytes), Ok(name)) => Some(
            Attachment { kind, path, mime, bytes, name },
        ),
        _ => None,
    }
}

/// The event that a JSON form stands for.
pub fn event_of_json(j: &Json) -> (r: Option<Event>)
    ensures
        match r {
            Some(e) => event_from(j@) == Some(e@),
            None => event_from(j@) is None,
        },
{
    let kind: String = match j.plain_tag("type") {
        Some(t) => t,
        None => {
            return None;
        },
    };
    let t: &str = kind.as_str();
    if text::same(t, "assistant_text") {
        let names: Vec<&str> = vec!["text", "partial"];
        assert(json::strs(names@) =~= seq!["text"@, "partial"@]);
        let j: &Json = &j.as_variant(&names, 2);
        match (j.get_text("text"), truth_of(j, "partial")) {
            (Some(text), Some(partial)) => Some(Event::AssistantText { text, partial }),
            _ => None,
        }
    } else if text::same(t, "assistant_attachment") {
        let names: Vec<&str> = vec!["kind", "path", "mime", "bytes", "name"];
        assert(json::strs(names@) =~= attachment_fields());
        let j: &Json = &j.as_variant(&names, 4);
        match attachment_of_json(j) {
            Some(a) => Some(Event::AssistantAttachment(a)),
            None => None,
        }
    } else if text::same(t, "permission_request") {
        let names: Vec<&str> = vec!["id", "tool_name", "description", "input"];
        assert(json::strs(names@) =~= permission_fields());
        let j: &Json = &j.as_variant(&names, 3);
        match permission_of_json(j) {
            Some(p) => Some(Event::PermissionRequest(p)),
            None => None,
        }
    } else if text::same(t, "tool_start") {
        let names: Vec<&str> = vec!["name", "id"];
        assert(json::strs(names@) =~= seq!["name"@, "id"@]);
        let j: &Json = &j.as_variant(&names, 2);
        match (j.get_text("name"), j.get_text("id")) {
            (Some(name), Some(id)) => Some(Event::ToolStart { name, id }),
            _ => None,
        }
    } else if text::same(t, "tool_end") {
        let names: Vec<&str> = vec!["id", "ok"];
        assert(json::strs(names@) =~= seq!["id"@, "ok"@]);
        let j: &Json = &j.as_variant(&names, 2);
        match (j.get_text("id"), truth_of(j, "ok")) {
            (Some(id), Some(ok)) => Some(Event::ToolEnd { id, ok }),
            _ => None,
        }
    } else if text::same(t, "done") {
        let names: Vec<&str> = vec!["session_id"];
        assert(json::strs(names@) =~= seq!["session_id"@]);
        let j: &Json = &j.as_variant(&names, 1);
        match j.get_text("session_id") {
            Some(session_id) => Some(Event::Done { session_id }),
            None => None,
        }
    } else {
        None
    }
}

/// The strings that the forms of events are made of differ from one another.
proof fn lemma_event_words()
    ensures
        "type"@ != "text"@,
        "type"@ != "kind"@,
        "type"@ != "path"@,
        "type"@ != "mime"@,
        "type"@ != "name"@,
        "type"@ != "partial"@,
        "type"@ != "bytes"@,
        "type"@ != "id"@,
        "type"@ != "ok"@,
        "type"@ != "tool_name"@,
        "type"@ != "description"@,
        "type"@ != "input"@,
        "type"@ != "session_id"@,
        "text"@ != "partial"@,
        "kind"@ != "path"@,
        "kind"@ != "mime"@,
        "kind"@ != "bytes"@,
        "kind"@ != "name"@,
        "path"@ != "mime"@,
        "path"@ != "bytes"@,
        "path"@ != "name"@,
        "mime"@ != "bytes"@,
        "mime"@ != "name"@,
        "bytes"@ != "name"@,
        "id"@ != "ok"@,
        "name"@ != "id"@,
        "id"@ != "tool_name"@,
        "id"@ != "description"@,
        "id"@ != "input"@,
        "tool_name"@ != "description"@,
        "tool_name"@ != "input"@,
        "description"@ != "input"@,
        "image"@ != "file"@,
        "image"@ != "audio"@,
        "file"@ != "audio"@,
        "assistant_text"@ != "assistant_attachment"@,
        "assistant_text"@ != "permission_request"@,
        "assistant_attachment"@ != "permission_request"@,
        "tool_start"@ != "assistant_text"@,
        "tool_start"@ != "assistant_attachment"@,
        "tool_start"@ != "permission_request"@,
        "tool_end"@ != "assistant_text"@,
        "tool_end"@ != "assistant_attachment"@,
        "tool_end"@ != "permission_request"@,
        "tool_end"@ != "tool_start"@,
        "done"@ != "assistant_text"@,
        "done"@ != "assistant_attachment"@,
        "done"@ != "permission_request"@,
        "done"@ != "tool_start"@,
        "done"@ != "tool_end"@,
{
    reveal_strlit("type");
    reveal_strlit("text");
    reveal_strlit("kind");
    reveal_strlit("path");
    reveal_strlit("mime");
    reveal_strlit("name");
    reveal_strlit("partial");
    reveal_strlit("bytes");
    reveal_strlit("id");
    reveal_strlit("ok");
    reveal_strlit("tool_name");
    reveal_strlit("description");
    reveal_strlit("input");
    reveal_strlit("session_id");
    reveal_strlit("image");
    reveal_strlit("file");
    reveal_strlit("audio");
    reveal_strlit("assistant_text");
    reveal_strlit("assistant_attachment");
    reveal_strlit("permission_request");
    reveal_strlit("tool_start");
    reveal_strlit("tool_end");
    reveal_strlit("done");
    assert("type"@.len() == 4);
    assert("text"@.len() == 4);
    assert("kind"@.len() == 4);
    assert("path"@.len() == 4);
    assert("mime"@.len() == 4);
    assert("name"@.len() == 4);
    assert("partial"@.len() == 7);
    assert("bytes"@.len() == 5);
    assert("id"@.len() == 2);
    assert("ok"@.len() == 2);
    assert("tool_name"@.len() == 9);
    assert("description"@.len() == 11);
    assert("input"@.len() == 5);
    assert("session_id"@.len() == 10);
    assert("image"@.len() == 5);
    assert("file"@.len() == 4);
    assert("audio"@.len() == 5);
    assert("assistant_text"@.len() == 14);
    assert("assistant_attachment"@.len() == 20);
    assert("permission_request"@.len() == 18);
    assert("tool_start"@.len() == 10);
    assert("tool_end"@.len() == 8);
    assert("done"@.len() == 4);
    assert("type"@[0] == 't' && "type"@[1] == 'y' && "text"@[1] == 'e');
    assert("kind"@[0] == 'k' && "path"@[0] == 'p' && "mime"@[0] == 'm' && "name"@[0] == 'n');
    assert("bytes"@[0] == 'b' && "input"@[0] == 'i');
    assert("id"@[0] == 'i' && "ok"@[0] == 'o');
    assert("image"@[0] == 'i' && "file"@[0] == 'f' && "audio"@[0] == 'a');
}

/// A permission request is what its JSON form stands for.
pub proof fn stored_permission_reads_back(p: types::PermissionView)
    ensures
        permission_from(permission_json(p)) == Some(p),
{
    lemma_event_words();
    let o = permission_json(p)->Object_0;
    reveal_with_fuel(json::member, 5);
    assert(o.drop_first()[0] == o[1]);
    assert(o.drop_first().drop_first()[0] == o[2]);
    assert(o.drop_first().drop_first().drop_first()[0] == o[3]);
}

/// An event is what its JSON form stands for, where it has one.
pub proof fn stored_event_reads_back(e: types::EventView)
    requires
        !(e is Error),
    ensures
        event_json(e) matches Some(j) && event_from(j) == Some(e),
{
    lemma_event_words();
    let o = event_json(e)->Some_0->Object_0;
    reveal_with_fuel(json::member, 7);
    assert(o.drop_first()[0] == o[1]);
    if o.len() > 2 {
        assert(o.drop_first().drop_first()[0] == o[2]);
    }
    if o.len() > 3 {
        let d = o.drop_first().drop_first().drop_first();
        assert(d[0] == o[3]);
        assert(d.drop_first()[0] == o[4]);
        if o.len() > 5 {
            assert(d.drop_first().drop_first()[0] == o[5]);
        }
    }
    if e is AssistantAttachment {
        let a = e->AssistantAttachment_0;
        if a.bytes is Some {
            text::decimal_reads_back(a.bytes->Some_0 as nat);
        }
    }
}

// ── Laws of the written forms ───────────────────────────────────────────

/// A schedule is written with its kind and its times, each under its own name.
pub proof fn schedules_are_written_by_name(at: i64, interval: u64)
    ensures
        kind_json(ScheduleKind::Once { fire_at_ms: at }) == json::JsonView::Object(
            seq![
                ("fire_at_ms"@, json::JsonView::Number(text::integer(at as int))),
                ("kind"@, json::JsonView::Str("once"@)),
            ],
        ),
        kind_json(ScheduleKind::Recurring { interval_ms: interval, next_fire_ms: at })
            == json::JsonView::Object(
            seq![
                ("interval_ms"@, json::JsonView::Number(text::integer(interval as int))),
                ("kind"@, json::JsonView::Str("recurring"@)),
                ("next_fire_ms"@, json::JsonView::Number(text::integer(at as int))),
            ],
        ),
{
}

/// A context is written with the channel, the thread and the user under their names,
/// and with whatever else the platform keeps.
pub proof fn contexts_are_written_by_name(
    channel: Seq<char>,
    thread: Seq<char>,
    user: Seq<char>,
    extra: json::JsonView,
)
    ensures
        ctx_json(
            types::ReplyCtxView {
                channel: Some(channel),
                thread: Some(thread),
                user: Some(user),
                extra,
            },
        ) == json::JsonView::Object(
            seq![
                ("channel"@, json::JsonView::Str(channel)),
                ("extra"@, extra),
                ("thread"@, json::JsonView::Str(thread)),
                ("user"@, json::JsonView::Str(user)),
            ],
        ),
        ctx_json(types::ReplyCtxView { channel: None, thread: None, user: None, extra })
            == json::JsonView::Object(
            seq![
                ("channel"@, json::JsonView::Null),
                ("extra"@, extra),
                ("thread"@, json::JsonView::Null),
                ("user"@, json::JsonView::Null),
            ],
        ),
{
}

/// An event is written with its type and its parts, each under its own name; an error
/// is not written.
pub proof fn events_are_written_by_name(
    t: Seq<char>,
    partial: bool,
    name: Seq<char>,
    id: Seq<char>,
    ok: bool,
    a: types::AttachmentView,
    p: types::PermissionView,
)
    ensures
        event_json(types::EventView::AssistantText { text: t, partial }) == Some(
            json::JsonView::Object(
                seq![
                    ("type"@, json::JsonView::Str("assistant_text"@)),
                    ("text"@, json::JsonView::Str(t)),
                    ("partial"@, json::JsonView::Bool(partial)),
                ],
            ),
        ),
        event_json(types::EventView::ToolStart { name, id }) == Some(
            json::JsonView::Object(
                seq![
                    ("type"@, json::JsonView::Str("tool_start"@)),
                    ("name"@, json::JsonView::Str(name)),
                    ("id"@, json::JsonView::Str(id)),
                ],
            ),
        ),
        event_json(types::EventView::ToolEnd { id, ok }) == Some(
            json::JsonView::Object(
                seq![
                    ("type"@, json::JsonView::Str("tool_end"@)),
                    ("id"@, json::JsonView::Str(id)),
                    ("ok"@, json::JsonView::Bool(ok)),
                ],
            ),
        ),
        event_json(types::EventView::Done { session_id: id }) == Some(
            json::JsonView::Object(
                seq![
                    ("type"@, json::JsonView::Str("done"@)),
                    ("session_id"@, json::JsonView::Str(id)),
                ],
            ),
        ),
        event_json(types::EventView::Error(t)) is None,
        a.bytes is None && a.name is None ==> event_json(types::EventView::AssistantAttachment(a))
            == Some(
            json::JsonView::Object(
                seq![
                    ("type"@, json::JsonView::Str("assistant_attachment"@)),
                    (
                        "kind"@,
                        json::JsonView::Str(
                            match a.kind {
                                AttachmentKind::Image => "image"@,
                                AttachmentKind::File => "file"@,
                                AttachmentKind::Audio => "audio"@,
                            },
                        ),
                    ),
                    ("path"@, json::JsonView::Str(a.path)),
                    ("mime"@, json::JsonView::Str(a.mime)),
                    ("bytes"@, json::JsonView::Null),
                    ("name"@, json::JsonView::Null),
                ],
            ),
        ),
        event_json(types::EventView::PermissionRequest(p)) == Some(
            json::JsonView::Object(
                seq![
                    ("type"@, json::JsonView::Str("permission_request"@)),
                    ("id"@, json::JsonView::Str(p.id)),
                    ("tool_name"@, json::JsonView::Str(p.tool_name)),
                    ("description"@, json::JsonView::Str(p.description)),
                    ("input"@, p.input),
                ],
            ),
        ),
{
    let head = seq![("type"@, json::JsonView::Str("permission_request"@))];
    assert(head + permission_json(p)->Object_0 =~= seq![
        ("type"@, json::JsonView::Str("permission_request"@)),
        ("id"@, json::JsonView::Str(p.id)),
        ("tool_name"@, json::JsonView::Str(p.tool_name)),
        ("description"@, json::JsonView::Str(p.description)),
        ("input"@, p.input),
    ]);
}

/// An optional text is there, or missing, or null; anything else cannot be read. So
/// with a count.
pub proof fn optional_fields_may_be_missing(j: json::JsonView, key: Seq<char>, t: Seq<char>, n: u64)
    ensures
        j.get(key) is None ==> opt_text_at(j, key) == Ok::<Option<Seq<char>>, ()>(None)
            && opt_count_at(j, key) == Ok::<Option<u64>, ()>(None),
        j.get(key) == Some(json::JsonView::Null) ==> opt_text_at(j, key) == Ok::<
            Option<Seq<char>>,
            (),
        >(None) && opt_count_at(j, key) == Ok::<Option<u64>, ()>(None),
        j.get(key) == Some(json::JsonView::Str(t)) ==> opt_text_at(j, key) == Ok::<
            Option<Seq<char>>,
            (),
        >(Some(t)) && opt_count_at(j, key) is Err,
        j.get(key) == Some(json::int_json(n as int)) ==> opt_count_at(j, key) == Ok::<
            Option<u64>,
            (),
        >(Some(n)) && opt_text_at(j, key) is Err,
{
    text::decimal_reads_back(n as nat);
}

/// A schedule, a context or an event may also be a list, in the order of its fields.
pub proof fn lists_are_read_in_order(
    at: i64,
    interval: u64,
    a: Seq<char>,
    b: Seq<char>,
    c: Seq<char>,
    flag: bool,
)
    ensures
        kind_from(
            json::JsonView::Array(
                seq![
                    json::JsonView::Str("recurring"@),
                    json::int_json(interval as int),
                    json::int_json(at as int),
                ],
            ),
        ) == Some(ScheduleKind::Recurring { interval_ms: interval, next_fire_ms: at }),
        ctx_from(
            json::JsonView::Array(
                seq![json::JsonView::Str(a), json::JsonView::Str(b), json::JsonView::Str(c)],
            ),
        ) == Some(
            types::ReplyCtxView {
                channel: Some(a),
                thread: Some(b),
                user: Some(c),
                extra: json::JsonView::Null,
            },
        ),
        event_from(
            json::JsonView::Array(
                seq![
                    json::JsonView::Str("tool_start"@),
                    json::JsonView::Str(a),
                    json::JsonView::Str(b),
                ],
            ),
        ) == Some(types::EventView::ToolStart { name: a, id: b }),
        event_from(
            json::JsonView::Array(
                seq![
                    json::JsonView::Str("assistant_text"@),
                    json::JsonView::Str(a),
                    json::JsonView::Bool(flag),
                ],
            ),
        ) == Some(types::EventView::AssistantText { text: a, partial: flag }),
{
    lemma_event_words();
    lemma_int_json(at as int);
    lemma_int_json(interval as int);
    reveal_strlit("recurring");
    reveal_strlit("once");
    reveal_strlit("interval_ms");
    reveal_strlit("next_fire_ms");
    reveal_strlit("channel");
    reveal_strlit("thread");
    reveal_strlit("user");
    reveal_strlit("extra");
    assert("recurring"@.len() == 9 && "once"@.len() == 4 && "interval_ms"@.len() == 11
        && "next_fire_ms"@.len() == 12);
    assert("channel"@.len() == 7 && "thread"@.len() == 6 && "user"@.len() == 4 && "extra"@.len()
        == 5);
    let times = seq![json::int_json(interval as int), json::int_json(at as int)];
    let time_names = seq!["interval_ms"@, "next_fire_ms"@];
    let r = seq![
        json::JsonView::Str("recurring"@),
        json::int_json(interval as int),
        json::int_json(at as int),
    ];
    assert(r.drop_first() =~= times);
    assert(time_names.no_duplicates());
    json::lists_are_read_by_position(times, time_names, 2, 0, Seq::empty());
    json::lists_are_read_by_position(times, time_names, 2, 1, Seq::empty());
    let ctx = seq![json::JsonView::Str(a), json::JsonView::Str(b), json::JsonView::Str(c)];
    assert(ctx_fields().no_duplicates());
    json::lists_are_read_by_position(ctx, ctx_fields(), 3, 0, Seq::empty());
    json::lists_are_read_by_position(ctx, ctx_fields(), 3, 1, Seq::empty());
    json::lists_are_read_by_position(ctx, ctx_fields(), 3, 2, Seq::empty());
    json::lists_are_read_by_position(ctx, ctx_fields(), 3, 3, Seq::empty());
    let tool = seq![json::JsonView::Str(a), json::JsonView::Str(b)];
    let tool_names = seq!["name"@, "id"@];
    assert(tool_names.no_duplicates());
    assert(seq![
        json::JsonView::Str("tool_start"@),
        json::JsonView::Str(a),
        json::JsonView::Str(b),
    ].drop_first() =~= tool);
    json::lists_are_read_by_position(tool, tool_names, 2, 0, Seq::empty());
    json::lists_are_read_by_position(tool, tool_names, 2, 1, Seq::empty());
    let said = seq![json::JsonView::Str(a), json::JsonView::Bool(flag)];
    let said_names = seq!["text"@, "partial"@];
    assert(said_names.no_duplicates());
    assert(seq![
        json::JsonView::Str("assistant_text"@),
        json::JsonView::Str(a),
        json::JsonView::Bool(flag),
    ].drop_first() =~= said);
    json::lists_are_read_by_position(said, said_names, 2, 0, Seq::empty());
    json::lists_are_read_by_position(said, said_names, 2, 1, Seq::empty());
}

} // verus!
