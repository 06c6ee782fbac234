//! The stream-json events of the agent: how a line is read and what it means to
//! the user. Only the fields that matter here are kept; others are ignored, so
//! that later versions of the CLI can add some.

use vstd::prelude::*;
use vstd::string::*;

use crate::codec;
use crate::json;
use crate::json::Json;
use crate::paths;
use crate::paths::FileFact;
use crate::text;
use crate::types;
use crate::types::{Attachment, Event, PermissionRequest};

verus! {

#[derive(Debug, PartialEq, Eq)]
pub enum StreamEvent {
    /// Announces the session.
    System { subtype: Option<String>, session_id: Option<String> },
    Assistant { message: AssistantMessage, session_id: Option<String> },
    User { session_id: Option<String> },
    /// The last frame of a turn.
    Result {
        subtype: Option<String>,
        session_id: Option<String>,
        is_error: Option<bool>,
        errors: Option<Vec<String>>,
    },
    /// A question of the agent.
    ControlRequest { request_id: String, request: ControlReq },
    /// A part of a message that is still being written.
    StreamEvent { session_id: Option<String>, event: PartialEvent },
}

#[derive(Debug, PartialEq, Eq)]
pub enum PartialEvent {
    ContentBlockDelta { index: u32, delta: PartialDelta },
    Other,
}

#[derive(Debug, PartialEq, Eq)]
pub enum PartialDelta {
    TextDelta { text: String },
    Other,
}

#[derive(Debug, PartialEq, Eq)]
pub struct AssistantMessage {
    pub content: Vec<ContentBlock>,
}

#[derive(Debug, PartialEq, Eq)]
pub enum ContentBlock {
    Text { text: String },
    ToolUse { id: String, name: String, input: Json },
    ToolResult { tool_use_id: String, content: Json },
    Unknown,
}

#[derive(Debug, PartialEq, Eq)]
pub enum ControlReq {
    PermissionRequest { tool_name: String, description: String, input: Json },
    Interrupt,
    Unknown,
}

pub enum StreamView {
    System { subtype: Option<Seq<char>>, session_id: Option<Seq<char>> },
    Assistant { content: Seq<BlockView>, session_id: Option<Seq<char>> },
    User { session_id: Option<Seq<char>> },
    Result {
        subtype: Option<Seq<char>>,
        session_id: Option<Seq<char>>,
        is_error: Option<bool>,
        errors: Option<Seq<Seq<char>>>,
    },
    ControlRequest { request_id: Seq<char>, request: ControlView },
    StreamEvent { session_id: Option<Seq<char>>, event: PartialView },
}

pub enum PartialView {
    TextDelta { index: u32, text: Seq<char> },
    OtherDelta { index: u32 },
    Other,
}

pub enum BlockView {
    Text { text: Seq<char> },
    ToolUse { id: Seq<char>, name: Seq<char>, input: json::JsonView },
    ToolResult { tool_use_id: Seq<char>, content: json::JsonView },
    Unknown,
}

pub enum ControlView {
    PermissionRequest { tool_name: Seq<char>, description: Seq<char>, input: json::JsonView },
    Interrupt,
    Unknown,
}

impl View for ContentBlock {
    type V = BlockView;

    open spec fn view(&self) -> BlockView {
        match self {
            ContentBlock::Text { text } => BlockView::Text { text: text@ },
            ContentBlock::ToolUse { id, name, input } => BlockView::ToolUse {
                id: id@,
                name: name@,
                input: input@,
            },
            ContentBlock::ToolResult { tool_use_id, content } => BlockView::ToolResult {
                tool_use_id: tool_use_id@,
                content: content@,
            },
            ContentBlock::Unknown => BlockView::Unknown,
        }
    }
}

impl View for ControlReq {
    type V = ControlView;

    open spec fn view(&self) -> ControlView {
        match self {
            ControlReq::PermissionRequest {
                tool_name,
                description,
                input,
            } => ControlView::PermissionRequest {
                tool_name: tool_name@,
                description: description@,
                input: input@,
            },
            ControlReq::Interrupt => ControlView::Interrupt,
            ControlReq::Unknown => ControlView::Unknown,
        }
    }
}

impl View for PartialEvent {
    type V = PartialView;

    open spec fn view(&self) -> PartialView {
        match self {
            PartialEvent::ContentBlockDelta { index, delta } => match delta {
                PartialDelta::TextDelta { text } => PartialView::TextDelta {
                    index: *index,
                    text: text@,
                },
                PartialDelta::Other => PartialView::OtherDelta { index: *index },
            },
            PartialEvent::Other => PartialView::Other,
        }
    }
}

/// The views of a list of blocks.
pub open spec fn block_views(v: Seq<ContentBlock>) -> Seq<BlockView> {
    Seq::new(v.len(), |i: int| v[i]@)
}

/// The texts of an optional list.
pub open spec fn opt_texts(v: Option<Vec<String>>) -> Option<Seq<Seq<char>>> {
    match v {
        Some(v) => Some(text::texts(v@)),
        None => None,
    }
}

impl View for StreamEvent {
    type V = StreamView;

    open spec fn view(&self) -> StreamView {
        match self {
            StreamEvent::System { subtype, session_id } => StreamView::System {
                subtype: text::opt_text(*subtype),
                session_id: text::opt_text(*session_id),
            },
            StreamEvent::Assistant { message, session_id } => StreamView::Assistant {
                content: block_views(message.content@),
                session_id: text::opt_text(*session_id),
            },
            StreamEvent::User { session_id } => StreamView::User {
                session_id: text::opt_text(*session_id),
            },
            StreamEvent::Result { subtype, session_id, is_error, errors } => StreamView::Result {
                subtype: text::opt_text(*subtype),
                session_id: text::opt_text(*session_id),
                is_error: *is_error,
                errors: opt_texts(*errors),
            },
            StreamEvent::ControlRequest { request_id, request } => StreamView::ControlRequest {
                request_id: request_id@,
                request: request@,
            },
            StreamEvent::StreamEvent { session_id, event } => StreamView::StreamEvent {
                session_id: text::opt_text(*session_id),
                event: event@,
            },
        }
    }
}

// ── Reading ─────────────────────────────────────────────────────────────

/// The member of that name, null where there is none.
pub open spec fn value_at(j: json::JsonView, key: Seq<char>) -> json::JsonView {
    match j.get(key) {
        Some(v) => v,
        None => json::JsonView::Null,
    }
}

pub fn value_of_member(j: &Json, key: &str) -> (r: Json)
    ensures
        r@ == value_at(j@, key@),
{
    match j.get(key) {
        Some(v) => v.clone(),
        None => Json::Null,
    }
}

/// A content block. One of a kind that is not known is kept as such; one that
/// lacks a field is an error.
pub open spec fn block_from(j: json::JsonView) -> Option<BlockView> {
    match json::inner_tag(j, "type"@, seq!["text"@, "tool_use"@, "tool_result"@]) {
        None => None,
        Some(kind) => if kind == "text"@ {
            match json::as_variant(j, seq!["text"@], 1).get_text("text"@) {
                Some(t) => Some(BlockView::Text { text: t }),
                None => None,
            }
        } else if kind == "tool_use"@ {
            let j = json::as_variant(j, seq!["id"@, "name"@, "input"@], 2);
            match (j.get_text("id"@), j.get_text("name"@)) {
                (Some(id), Some(name)) => Some(
                    BlockView::ToolUse { id, name, input: value_at(j, "input"@) },
                ),
                _ => None,
            }
        } else if kind == "tool_result"@ {
            let j = json::as_variant(j, seq!["tool_use_id"@, "content"@], 1);
            match j.get_text("tool_use_id"@) {
                Some(id) => Some(
                    BlockView::ToolResult { tool_use_id: id, content: value_at(j, "content"@) },
                ),
                None => None,
            }
        } else if json::lone_tag(j) {
            Some(BlockView::Unknown)
        } else {
            None
        },
    }
}

/// A list of content blocks; an error in one is an error of all.
pub open spec fn blocks_from(a: Seq<json::JsonView>) -> Option<Seq<BlockView>>
    decreases a.len(),
{
    if a.len() == 0 {
        Some(Seq::empty())
    } else {
        match (blocks_from(a.drop_last()), block_from(a.last())) {
            (Some(v), Some(b)) => Some(v.push(b)),
            _ => None,
        }
    }
}

/// The content of a message: none is an empty list.
pub open spec fn content_from(message: json::JsonView) -> Option<Seq<BlockView>> {
    let message = json::as_struct(message, seq!["content"@], 0);
    if !(message is Object) {
        None
    } else {
        match message.get("content"@) {
            None => Some(Seq::empty()),
            Some(json::JsonView::Array(a)) => blocks_from(a),
            Some(_) => None,
        }
    }
}

/// A question of the agent.
pub open spec fn control_from(j: json::JsonView) -> Option<ControlView> {
    match json::inner_tag(j, "subtype"@, seq!["permission_request"@, "interrupt"@]) {
        None => None,
        Some(kind) => if kind == "permission_request"@ {
            let j = json::as_variant(j, seq!["tool_name"@, "description"@, "input"@], 1);
            match (j.get_text("tool_name"@), j.get("description"@)) {
                (Some(tool_name), None) => Some(
                    ControlView::PermissionRequest {
                        tool_name,
                        description: Seq::empty(),
                        input: value_at(j, "input"@),
                    },
                ),
                (Some(tool_name), Some(json::JsonView::Str(description))) => Some(
                    ControlView::PermissionRequest {
                        tool_name,
                        description,
                        input: value_at(j, "input"@),
                    },
                ),
                _ => None,
            }
        } else if !json::lone_tag(j) {
            None
        } else if kind == "interrupt"@ {
            Some(ControlView::Interrupt)
        } else {
            Some(ControlView::Unknown)
        },
    }
}

/// The position of a block in its message; none is 0.
pub open spec fn index_from(j: json::JsonView) -> Option<u32> {
    match j.get("index"@) {
        None => Some(0),
        Some(v) => match v.number() {
            Some(n) => if n <= u32::MAX {
                Some(n as u32)
            } else {
                None
            },
            None => None,
        },
    }
}

/// A part of a message that is still being written.
pub open spec fn partial_from(j: json::JsonView) -> Option<PartialView> {
    match json::inner_tag(j, "type"@, seq!["content_block_delta"@]) {
        None => None,
        Some(kind) => if kind == "content_block_delta"@ {
            let j = json::as_variant(j, seq!["index"@, "delta"@], 2);
            match (index_from(j), j.get("delta"@)) {
                (Some(index), Some(delta)) => match delta_from(delta) {
                    Some(Some(text)) => Some(PartialView::TextDelta { index, text }),
                    Some(None) => Some(PartialView::OtherDelta { index }),
                    None => None,
                },
                _ => None,
            }
        } else if json::lone_tag(j) {
            Some(PartialView::Other)
        } else {
            None
        },
    }
}

/// What is added to a block: a text, or nothing that is shown.
pub open spec fn delta_from(j: json::JsonView) -> Option<Option<Seq<char>>> {
    match json::inner_tag(j, "type"@, seq!["text_delta"@]) {
        None => None,
        Some(kind) => if kind == "text_delta"@ {
            match json::as_variant(j, seq!["text"@], 1).get_text("text"@) {
                Some(t) => Some(Some(t)),
                None => None,
            }
        } else if json::lone_tag(j) {
            Some(None)
        } else {
            None
        },
    }
}

/// An optional truth value: absent or null, or one. Anything else is an error.
pub open spec fn opt_bool_at(j: json::JsonView, key: Seq<char>) -> Result<Option<bool>, ()> {
    match j.get(key) {
        None => Ok(None),
        Some(json::JsonView::Null) => Ok(None),
        Some(json::JsonView::Bool(b)) => Ok(Some(b)),
        Some(_) => Err(()),
    }
}

/// A list of strings; anything else in it is an error.
pub open spec fn strings_from(a: Seq<json::JsonView>) -> Option<Seq<Seq<char>>>
    decreases a.len(),
{
    if a.len() == 0 {
        Some(Seq::empty())
    } else {
        match (strings_from(a.drop_last()), a.last().text()) {
            (Some(v), Some(t)) => Some(v.push(t)),
            _ => None,
        }
    }
}

/// An optional list of strings: absent or null, or one. Anything else is an
/// error.
pub open spec fn opt_strings_at(j: json::JsonView, key: Seq<char>) -> Result<
    Option<Seq<Seq<char>>>,
    (),
> {
    match j.get(key) {
        None => Ok(None),
        Some(json::JsonView::Null) => Ok(None),
        Some(json::JsonView::Array(a)) => match strings_from(a) {
            Some(v) => Ok(Some(v)),
            None => Err(()),
        },
        Some(_) => Err(()),
    }
}

/// The event that a JSON value stands for; none where it is of no known kind
/// or lacks a field.
pub open spec fn event_from(j: json::JsonView) -> Option<StreamView> {
    match json::plain_tag(j, "type"@) {
        None => None,
        Some(kind) => if kind == "control_request"@ {
            let j = json::as_variant(j, seq!["request_id"@, "request"@], 2);
            match (j.get_text("request_id"@), j.get("request"@)) {
                (Some(request_id), Some(r)) => match control_from(r) {
                    Some(request) => Some(StreamView::ControlRequest { request_id, request }),
                    None => None,
                },
                _ => None,
            }
        } else if kind == "assistant"@ {
            let j = json::as_variant(j, seq!["message"@, "session_id"@], 1);
            match (j.get("message"@), codec::opt_text_at(j, "session_id"@)) {
                (Some(m), Ok(session_id)) => match content_from(m) {
                    Some(content) => Some(StreamView::Assistant { content, session_id }),
                    None => None,
                },
                _ => None,
            }
        } else if kind == "stream_event"@ {
            let j = json::as_variant(j, seq!["session_id"@, "event"@], 2);
            match (j.get("event"@), codec::opt_text_at(j, "session_id"@)) {
                (Some(e), Ok(session_id)) => match partial_from(e) {
                    Some(event) => Some(StreamView::StreamEvent { session_id, event }),
                    None => None,
                },
                _ => None,
            }
        } else if !(j is Object) {
            None
        } else {
            open_event_from(j, kind)
        },
    }
}

/// The event of a kind that may have more members than are known, which is an
/// object.
pub open spec fn open_event_from(j: json::JsonView, kind: Seq<char>) -> Option<StreamView> {
    match codec::opt_text_at(j, "session_id"@) {
        Err(_) => None,
        Ok(session_id) => if kind == "system"@ {
            match codec::opt_text_at(j, "subtype"@) {
                Ok(subtype) => Some(StreamView::System { subtype, session_id }),
                Err(_) => None,
            }
        } else if kind == "user"@ {
            Some(StreamView::User { session_id })
        } else if kind == "result"@ {
            match (
                codec::opt_text_at(j, "subtype"@),
                opt_bool_at(j, "is_error"@),
                opt_strings_at(j, "errors"@),
            ) {
                (Ok(subtype), Ok(is_error), Ok(errors)) => Some(
                    StreamView::Result { subtype, session_id, is_error, errors },
                ),
                _ => None,
            }
        } else {
            None
        },
    }
}

fn read_block(j: &Json) -> (r: Option<ContentBlock>)
    ensures
        match r {
            Some(b) => block_from(j@) == Some(b@),
            None => block_from(j@) is None,
        },
{
    let kinds: Vec<&str> = vec!["text", "tool_use", "tool_result"];
    assert(json::strs(kinds@) =~= seq!["text"@, "tool_use"@, "tool_result"@]);
    let kind: String = match j.inner_tag("type", &kinds) {
        Some(k) => k,
        None => {
            return None;
        },
    };
    if text::same(kind.as_str(), "text") {
        let names: Vec<&str> = vec!["text"];
        assert(json::strs(names@) =~= seq!["text"@]);
        let j: &Json = &j.as_variant(&names, 1);
        match j.get_text("text") {
            Some(text) => Some(ContentBlock::Text { text }),
            None => None,
        }
    } else if text::same(kind.as_str(), "tool_use") {
        let names: Vec<&str> = vec!["id", "name", "input"];
        assert(json::strs(names@) =~= seq!["id"@, "name"@, "input"@]);
        let j: &Json = &j.as_variant(&names, 2);
        match (j.get_text("id"), j.get_text("name")) {
            (Some(id), Some(name)) => Some(
                ContentBlock::ToolUse { id, name, input: value_of_member(j, "input") },
            ),
            _ => None,
        }
    } else if text::same(kind.as_str(), "tool_result") {
        let names: Vec<&str> = vec!["tool_use_id", "content"];
        assert(json::strs(names@) =~= seq!["tool_use_id"@, "content"@]);
        let j: &Json = &j.as_variant(&names, 1);
        match j.get_text("tool_use_id") {
            Some(tool_use_id) => Some(
                ContentBlock::ToolResult { tool_use_id, content: value_of_member(j, "content") },
            ),
            None => None,
        }
    } else if j.lone_tag() {
        Some(ContentBlock::Unknown)
    } else {
        None
    }
}

proof fn lemma_blocks_fail(a: Seq<json::JsonView>, i: int)
    requires
        0 <= i < a.len(),
        block_from(a[i]) is None,
    ensures
        blocks_from(a) is None,
    decreases a.len(),
{
    if i < a.len() - 1 {
        lemma_blocks_fail(a.drop_last(), i);
    }
}

fn read_blocks(v: &Vec<Json>) -> (r: Option<Vec<ContentBlock>>)
    ensures
        match r {
            Some(b) => blocks_from(json::json_views(v@)) == Some(block_views(b@)),
            None => blocks_from(json::json_views(v@)) is None,
        },
{
    let ghost a = json::json_views(v@);
    proof {
        json::lemma_json_views(v@);
    }
    let mut out: Vec<ContentBlock> = Vec::new();
    let mut i: usize = 0;
    assert(a.take(0).len() == 0);
    assert(block_views(out@) =~= Seq::<BlockView>::empty());
    while i < v.len()
        invariant
            i <= v@.len(),
            a == json::json_views(v@),
            a.len() == v@.len(),
            forall|k: int| 0 <= k < v@.len() ==> #[trigger] a[k] == json::json_view(v@[k]),
            blocks_from(a.take(i as int)) == Some(block_views(out@)),
        decreases v@.len() - i,
    {
        assert(a[i as int] == v@[i as int]@);
        match read_block(&v[i]) {
            Some(b) => {
                let ghost before = out@;
                let ghost view = b@;
                out.push(b);
                assert(block_views(out@) =~= block_views(before).push(view));
                assert(a.take(i + 1).drop_last() =~= a.take(i as int));
                assert(a.take(i + 1).last() == a[i as int]);
            },
            None => {
                proof {
                    lemma_blocks_fail(a, i as int);
                }
                return None;
            },
        }
        i = i + 1;
    }
    assert(a.take(i as int) =~= a);
    Some(out)
}

fn read_content(message: &Json) -> (r: Option<Vec<ContentBlock>>)
    ensures
        match r {
            Some(b) => content_from(message@) == Some(block_views(b@)),
            None => content_from(message@) is None,
        },
{
    let names: Vec<&str> = vec!["content"];
    assert(json::strs(names@) =~= seq!["content"@]);
    let message: &Json = &message.as_struct(&names, 0);
    let object: bool = match message {
        Json::Object(_) => true,
        _ => false,
    };
    if !object {
        return None;
    }
    match message.get("content") {
        None => {
            let none: Vec<ContentBlock> = Vec::new();
            assert(block_views(none@) =~= Seq::<BlockView>::empty());
            Some(none)
        },
        Some(c) => match c {
            Json::Array(v) => read_blocks(v),
            _ => None,
        },
    }
}

fn read_control(j: &Json) -> (r: Option<ControlReq>)
    ensures
        match r {
            Some(c) => control_from(j@) == Some(c@),
            None => control_from(j@) is None,
        },
{
    let kinds: Vec<&str> = vec!["permission_request", "interrupt"];
    assert(json::strs(kinds@) =~= seq!["permission_request"@, "interrupt"@]);
    let kind: String = match j.inner_tag("subtype", &kinds) {
        Some(k) => k,
        None => {
            return None;
        },
    };
    if text::same(kind.as_str(), "permission_request") {
        let names: Vec<&str> = vec!["tool_name", "description", "input"];
        assert(json::strs(names@) =~= seq!["tool_name"@, "description"@, "input"@]);
        let j: &Json = &j.as_variant(&names, 1);
        let tool_name: String = match j.get_text("tool_name") {
            Some(t) => t,
            None => {
                return None;
            },
        };
        let description: String = match j.get("description") {
            None => {
                let empty: String = String::new();
                assert(empty@ =~= Seq::<char>::empty());
                empty
            },
            Some(d) => match d {
                Json::Str(s) => s.clone(),
                _ => {
                    return None;
                },
            },
        };
        Some(
            ControlReq::PermissionRequest {
                tool_name,
                description,
                input: value_of_member(j, "input"),
            },
        )
    } else if !j.lone_tag() {
        None
    } else if text::same(kind.as_str(), "interrupt") {
        Some(ControlReq::Interrupt)
    } else {
        Some(ControlReq::Unknown)
    }
}

fn read_index(j: &Json) -> (r: Option<u32>)
    ensures
        r == index_from(j@),
{
    match j.get("index") {
        None => Some(0),
        Some(v) => match v.as_number() {
            Some(n) => if n <= 4_294_967_295 {
                Some(n as u32)
            } else {
                None
            },
            None => None,
        },
    }
}

fn read_delta(j: &Json) -> (r: Option<PartialDelta>)
    ensures
        match r {
            Some(PartialDelta::TextDelta { text }) => delta_from(j@) == Some(Some(text@)),
            Some(PartialDelta::Other) => delta_from(j@) == Some(None::<Seq<char>>),
            None => delta_from(j@) is None,
        },
{
    let kinds: Vec<&str> = vec!["text_delta"];
    assert(json::strs(kinds@) =~= seq!["text_delta"@]);
    let kind: String = match j.inner_tag("type", &kinds) {
        Some(k) => k,
        None => {
            return None;
        },
    };
    if text::same(kind.as_str(), "text_delta") {
        let names: Vec<&str> = vec!["text"];
        assert(json::strs(names@) =~= seq!["text"@]);
        let j: &Json = &j.as_variant(&names, 1);
        match j.get_text("text") {
            Some(text) => Some(PartialDelta::TextDelta { text }),
            None => None,
        }
    } else if j.lone_tag() {
        Some(PartialDelta::Other)
    } else {
        None
    }
}

fn read_partial(j: &Json) -> (r: Option<PartialEvent>)
    ensures
        match r {
            Some(e) => partial_from(j@) == Some(e@),
            None => partial_from(j@) is None,
        },
{
    let kinds: Vec<&str> = vec!["content_block_delta"];
    assert(json::strs(kinds@) =~= seq!["content_block_delta"@]);
    let kind: String = match j.inner_tag("type", &kinds) {
        Some(k) => k,
        None => {
            return None;
        },
    };
    if !text::same(kind.as_str(), "content_block_delta") {
        return if j.lone_tag() {
            Some(PartialEvent::Other)
        } else {
            None
        };
    }
    let names: Vec<&str> = vec!["index", "delta"];
    assert(json::strs(names@) =~= seq!["index"@, "delta"@]);
    let j: &Json = &j.as_variant(&names, 2);
    let index: u32 = match read_index(j) {
        Some(i) => i,
        None => {
            return None;
        },
    };
    match j.get("delta") {
        Some(d) => match read_delta(d) {
            Some(delta) => Some(PartialEvent::ContentBlockDelta { index, delta }),
            None => None,
        },
        None => None,
    }
}

fn read_opt_bool(j: &Json, key: &str) -> (r: Result<Option<bool>, ()>)
    ensures
        r == opt_bool_at(j@, key@),
{
    match j.get(key) {
        None => Ok(None),
        Some(v) => match v {
            Json::Null => Ok(None),
            Json::Bool(b) => Ok(Some(*b)),
            _ => Err(()),
        },
    }
}

proof fn lemma_strings_fail(a: Seq<json::JsonView>, i: int)
    requires
        0 <= i < a.len(),
        a[i].text() is None,
    ensures
        strings_from(a) is None,
    decreases a.len(),
{
    if i < a.len() - 1 {
        lemma_strings_fail(a.drop_last(), i);
    }
}

/// A list of strings; anything else in it is an error.
pub fn read_strings(v: &Vec<Json>) -> (r: Option<Vec<String>>)
    ensures
        opt_texts(r) == strings_from(json::json_views(v@)),
{
    let ghost a = json::json_views(v@);
    proof {
        json::lemma_json_views(v@);
    }
    let mut out: Vec<String> = Vec::new();
    let mut i: usize = 0;
    assert(a.take(0).len() == 0);
    assert(text::texts(out@) =~= Seq::<Seq<char>>::empty());
    while i < v.len()
        invariant
            i <= v@.len(),
            a == json::json_views(v@),
            a.len() == v@.len(),
            forall|k: int| 0 <= k < v@.len() ==> #[trigger] a[k] == json::json_view(v@[k]),
            strings_from(a.take(i as int)) == Some(text::texts(out@)),
        decreases v@.len() - i,
    {
        assert(a[i as int] == v@[i as int]@);
        match v[i].as_text() {
            Some(t) => {
                let ghost before = out@;
                let ghost view = t@;
                out.push(t);
                assert(text::texts(out@) =~= text::texts(before).push(view));
                assert(a.take(i + 1).drop_last() =~= a.take(i as int));
                assert(a.take(i + 1).last() == a[i as int]);
            },
            None => {
                proof {
                    lemma_strings_fail(a, i as int);
                }
                return None;
            },
        }
        i = i + 1;
    }
    assert(a.take(i as int) =~= a);
    Some(out)
}

fn read_opt_strings(j: &Json, key: &str) -> (r: Result<Option<Vec<String>>, ()>)
    ensures
        match r {
            Ok(v) => opt_strings_at(j@, key@) == Ok::<Option<Seq<Seq<char>>>, ()>(opt_texts(v)),
            Err(()) => opt_strings_at(j@, key@) is Err,
        },
{
    match j.get(key) {
        None => Ok(None),
        Some(v) => match v {
            Json::Null => Ok(None),
            Json::Array(a) => match read_strings(a) {
                Some(s) => Ok(Some(s)),
                None => Err(()),
            },
            _ => Err(()),
        },
    }
}

/// The event that a JSON value stands for; none where it is of no known kind
/// or lacks a field.
pub fn read_event(j: &Json) -> (r: Option<StreamEvent>)
    ensures
        match r {
            Some(e) => event_from(j@) == Some(e@),
            None => event_from(j@) is None,
        },
{
    let kind: String = match j.plain_tag("type") {
        Some(k) => k,
        None => {
            return None;
        },
    };
    if text::same(kind.as_str(), "control_request") {
        let names: Vec<&str> = vec!["request_id", "request"];
        assert(json::strs(names@) =~= seq!["request_id"@, "request"@]);
        let j: &Json = &j.as_variant(&names, 2);
        match (j.get_text("request_id"), j.get("request")) {
            (Some(request_id), Some(r)) => match read_control(r) {
                Some(request) => Some(StreamEvent::ControlRequest { request_id, request }),
                None => None,
            },
            _ => None,
        }
    } else if text::same(kind.as_str(), "assistant") {
        let names: Vec<&str> = vec!["message", "session_id"];
        assert(json::strs(names@) =~= seq!["message"@, "session_id"@]);
        let j: &Json = &j.as_variant(&names, 1);
        match (j.get("message"), codec::opt_text_of(j, "session_id")) {
            (Some(m), Ok(session_id)) => match read_content(m) {
                Some(content) => Some(
                    StreamEvent::Assistant { message: AssistantMessage { content }, session_id },
                ),
                None => None,
            },
            _ => None,
        }
    } else if text::same(kind.as_str(), "stream_event") {
        let names: Vec<&str> = vec!["session_id", "event"];
        assert(json::strs(names@) =~= seq!["session_id"@, "event"@]);
        let j: &Json = &j.as_variant(&names, 2);
        match (j.get("event"), codec::opt_text_of(j, "session_id")) {
            (Some(e), Ok(session_id)) => match read_partial(e) {
                Some(event) => Some(StreamEvent::StreamEvent { session_id, event }),
                None => None,
            },
            _ => None,
        }
    } else {
        match j {
            Json::Object(_) => read_open_event(j, kind.as_str()),
            _ => None,
        }
    }
}

fn read_open_event(j: &Json, kind: &str) -> (r: Option<StreamEvent>)
    ensures
        match r {
            Some(e) => open_event_from(j@, kind@) == Some(e@),
            None => open_event_from(j@, kind@) is None,
        },
{
    let session_id: Option<String> = match codec::opt_text_of(j, "session_id") {
        Ok(id) => id,
        Err(()) => {
            return None;
        },
    };
    if text::same(kind, "system") {
        match codec::opt_text_of(j, "subtype") {
            Ok(subtype) => Some(StreamEvent::System { subtype, session_id }),
            Err(()) => None,
        }
    } else if text::same(kind, "user") {
        Some(StreamEvent::User { session_id })
    } else if text::same(kind, "result") {
        match (
            codec::opt_text_of(j, "subtype"),
            read_opt_bool(j, "is_error"),
            read_opt_strings(j, "errors"),
        ) {
            (Ok(subtype), Ok(is_error), Ok(errors)) => Some(
                StreamEvent::Result { subtype, session_id, is_error, errors },
            ),
            _ => None,
        }
    } else {
        None
    }
}

/// The event of a line of standard output; none where the line is no JSON or
/// no event.
pub fn parse_line(line: &str) -> (r: Option<StreamEvent>)
    ensures
        match r {
            Some(e) => json::parsed(line@) matches Some(j) && event_from(j) == Some(e@),
            None => json::parsed(line@) matches Some(j) ==> event_from(j) is None,
        },
{
    match json::parse(line) {
        Some(j) => read_event(&j),
        None => None,
    }
}

// ── Meaning ─────────────────────────────────────────────────────────────

/// The views of a list of events.
pub open spec fn event_views(v: Seq<Event>) -> Seq<types::EventView> {
    Seq::new(v.len(), |i: int| v[i]@)
}

/// The events of the files that a text hands out.
pub open spec fn file_events(v: Seq<types::AttachmentView>) -> Seq<types::EventView> {
    Seq::new(v.len(), |i: int| types::EventView::AssistantAttachment(v[i]))
}

/// What a block means: a text is shown, followed by the files that it names; a
/// tool call is announced.
pub open spec fn block_events(b: BlockView, files: Seq<FileFact>) -> Seq<types::EventView> {
    match b {
        BlockView::Text { text } => if text.len() == 0 {
            Seq::empty()
        } else {
            seq![types::EventView::AssistantText { text, partial: false }] + file_events(
                paths::attachments_at(files, paths::paths_from(text, 0)),
            )
        },
        BlockView::ToolUse { id, name, input } => seq![types::EventView::ToolStart { name, id }],
        _ => Seq::empty(),
    }
}

/// What a list of blocks means, in order.
pub open spec fn blocks_events(v: Seq<BlockView>, files: Seq<FileFact>) -> Seq<types::EventView>
    decreases v.len(),
{
    if v.len() == 0 {
        Seq::empty()
    } else {
        blocks_events(v.drop_last(), files) + block_events(v.last(), files)
    }
}

/// The session id after an event that may carry one.
pub open spec fn moved_id(sid: Seq<char>, id: Option<Seq<char>>) -> Seq<char> {
    match id {
        Some(id) => id,
        None => sid,
    }
}

/// The message of a turn of `agent` that failed.
pub open spec fn error_text(agent: Seq<char>, errors: Option<Seq<Seq<char>>>) -> Seq<char> {
    match errors {
        Some(v) => if v.len() == 0 {
            agent + " exited with an error"@
        } else {
            text::join(v, "; "@)
        },
        None => agent + " exited with an error"@,
    }
}

/// What an event of `agent` means: the session id and the events for the user.
/// `files` are the known files on disk.
pub open spec fn meaning(
    agent: Seq<char>,
    e: StreamView,
    sid: Seq<char>,
    files: Seq<FileFact>,
) -> (
    Seq<char>,
    Seq<types::EventView>,
) {
    match e {
        StreamView::System { subtype, session_id } => (moved_id(sid, session_id), Seq::empty()),
        StreamView::User { session_id } => (moved_id(sid, session_id), Seq::empty()),
        StreamView::Assistant { content, session_id } => (
            moved_id(sid, session_id),
            blocks_events(content, files),
        ),
        StreamView::StreamEvent { session_id, event } => (
            moved_id(sid, session_id),
            match event {
                PartialView::TextDelta { index, text } => if text.len() == 0 {
                    Seq::empty()
                } else {
                    seq![types::EventView::AssistantText { text, partial: true }]
                },
                _ => Seq::empty(),
            },
        ),
        StreamView::Result { subtype, session_id, is_error, errors } => (
            moved_id(sid, session_id),
            (if is_error == Some(true) {
                seq![types::EventView::Error(error_text(agent, errors))]
            } else {
                Seq::empty()
            }).push(types::EventView::Done { session_id: moved_id(sid, session_id) }),
        ),
        StreamView::ControlRequest { request_id, request } => (
            sid,
            match request {
                ControlView::PermissionRequest { tool_name, description, input } => seq![
                    types::EventView::PermissionRequest(
                        types::PermissionView { id: request_id, tool_name, description, input },
                    ),
                ],
                _ => Seq::empty(),
            },
        ),
    }
}

fn push_event(v: &mut Vec<Event>, e: Event)
    ensures
        event_views(final(v)@) == event_views(old(v)@).push(e@),
{
    let ghost before = v@;
    v.push(e);
    assert(event_views(v@) =~= event_views(before).push(e@));
}

fn no_events() -> (r: Vec<Event>)
    ensures
        event_views(r@) == Seq::<types::EventView>::empty(),
{
    let v: Vec<Event> = Vec::new();
    assert(event_views(v@) =~= Seq::<types::EventView>::empty());
    v
}

fn one_event(e: Event) -> (r: Vec<Event>)
    ensures
        event_views(r@) == seq![e@],
{
    let mut v: Vec<Event> = no_events();
    push_event(&mut v, e);
    assert(event_views(v@) =~= seq![e@]);
    v
}

fn push_block(out: &mut Vec<Event>, block: ContentBlock, files: &Vec<FileFact>)
    ensures
        event_views(final(out)@) == event_views(old(out)@) + block_events(block@, files@),
{
    let ghost start = event_views(out@);
    let ghost b = block@;
    match block {
        ContentBlock::Text { text } => {
            if text.as_str().unicode_len() > 0 {
                let ghost t = text@;
                let found: Vec<Attachment> = paths::extract_file_attachments(text.as_str(), files);
                let ghost views = paths::attachments_at(files@, paths::paths_from(t, 0));
                let ghost tail = file_events(views);
                push_event(out, Event::AssistantText { text, partial: false });
                let ghost head = event_views(out@);
                let mut i: usize = 0;
                assert(head =~= head + tail.take(0));
                while i < found.len()
                    invariant
                        i <= found@.len(),
                        paths::attachment_views(found@) == views,
                        tail == file_events(views),
                        event_views(out@) == head + tail.take(i as int),
                    decreases found@.len() - i,
                {
                    assert(views[i as int] == found@[i as int]@);
                    push_event(out, Event::AssistantAttachment(found[i].clone()));
                    assert(tail.take(i + 1) =~= tail.take(i as int).push(tail[i as int]));
                    assert(head + tail.take(i + 1) =~= (head + tail.take(i as int)).push(
                        tail[i as int],
                    ));
                    i = i + 1;
                }
                assert(tail.take(i as int) =~= tail);
                assert(event_views(out@) =~= start + block_events(b, files@));
            } else {
                assert(event_views(out@) =~= start + block_events(b, files@));
            }
        },
        ContentBlock::ToolUse { id, name, input: _ } => {
            push_event(out, Event::ToolStart { name, id });
            assert(event_views(out@) =~= start + block_events(b, files@));
        },
        ContentBlock::ToolResult { tool_use_id: _, content: _ } => {
            assert(event_views(out@) =~= start + block_events(b, files@));
        },
        ContentBlock::Unknown => {
            assert(event_views(out@) =~= start + block_events(b, files@));
        },
    }
}

fn translate_blocks(blocks: Vec<ContentBlock>, files: &Vec<FileFact>) -> (r: Vec<Event>)
    ensures
        event_views(r@) == blocks_events(block_views(blocks@), files@),
{
    let ghost all = block_views(blocks@);
    let mut out: Vec<Event> = no_events();
    let mut rest: Vec<ContentBlock> = blocks;
    let ghost mut done: int = 0;
    assert(all.take(0).len() == 0);
    while rest.len() > 0
        invariant
            0 <= done <= all.len(),
            block_views(rest@) == all.skip(done),
            event_views(out@) == blocks_events(all.take(done), files@),
        decreases rest@.len(),
    {
        let ghost before = rest@;
        let b: ContentBlock = rest.remove(0);
        proof {
            assert(block_views(before).len() == all.skip(done).len());
            assert(all.skip(done)[0] == all[done]);
            assert(rest@ =~= before.drop_first());
            assert(block_views(rest@) =~= all.skip(done + 1)) by {
                assert(block_views(before).drop_first() =~= all.skip(done + 1));
            }
            assert(all.take(done + 1).drop_last() =~= all.take(done));
        }
        push_block(&mut out, b, files);
        proof {
            done = done + 1;
        }
    }
    assert(block_views(rest@).len() == 0);
    assert(all.take(done) =~= all);
    out
}

fn move_id(sid: &mut String, id: &Option<String>)
    ensures
        final(sid)@ == moved_id(old(sid)@, text::opt_text(*id)),
{
    match id {
        Some(id) => {
            *sid = id.clone();
        },
        None => {},
    }
}

/// What an event of `agent` means to the user. The session id moves with it;
/// `files` are the known files on disk.
pub fn translate_event(
    agent: &str,
    evt: StreamEvent,
    sid: &mut String,
    files: &Vec<FileFact>,
) -> (r: Vec<Event>)
    ensures
        (final(sid)@, event_views(r@)) == meaning(agent@, evt@, old(sid)@, files@),
{
    match evt {
        StreamEvent::System { subtype: _, session_id } => {
            move_id(sid, &session_id);
            no_events()
        },
        StreamEvent::User { session_id } => {
            move_id(sid, &session_id);
            no_events()
        },
        StreamEvent::Assistant { message, session_id } => {
            move_id(sid, &session_id);
            translate_blocks(message.content, files)
        },
        StreamEvent::StreamEvent { session_id, event } => {
            move_id(sid, &session_id);
            match event {
                PartialEvent::ContentBlockDelta { index: _, delta } => match delta {
                    PartialDelta::TextDelta { text } => if text.as_str().unicode_len() == 0 {
                        no_events()
                    } else {
                        one_event(Event::AssistantText { text, partial: true })
                    },
                    PartialDelta::Other => no_events(),
                },
                PartialEvent::Other => no_events(),
            }
        },
        StreamEvent::Result { subtype: _, session_id, is_error, errors } => {
            move_id(sid, &session_id);
            let mut out: Vec<Event> = no_events();
            let failed: bool = match is_error {
                Some(b) => b,
                None => false,
            };
            if failed {
                let msg: String = match &errors {
                    Some(v) => if v.len() == 0 {
                        text::concat2(agent, " exited with an error")
                    } else {
                        text::joined(v, "; ")
                    },
                    None => text::concat2(agent, " exited with an error"),
                };
                out = one_event(Event::Error(msg));
            }
            push_event(&mut out, Event::Done { session_id: sid.clone() });
            out
        },
        StreamEvent::ControlRequest { request_id, request } => match request {
            ControlReq::PermissionRequest { tool_name, description, input } => one_event(
                Event::PermissionRequest(
                    PermissionRequest { id: request_id, tool_name, description, input },
                ),
            ),
            ControlReq::Interrupt => no_events(),
            ControlReq::Unknown => no_events(),
        },
    }
}

/// The paths in the texts of a list of blocks, in order.
pub open spec fn blocks_paths(v: Seq<BlockView>) -> Seq<Seq<char>>
    decreases v.len(),
{
    if v.len() == 0 {
        Seq::empty()
    } else {
        blocks_paths(v.drop_last()) + (match v.last() {
            BlockView::Text { text } => paths::paths_from(text, 0),
            _ => Seq::empty(),
        })
    }
}

/// The paths whose files an event may hand out: they are to be looked up
/// before it is translated.
pub fn candidate_paths(evt: &StreamEvent) -> (r: Vec<String>)
    ensures
        text::texts(r@) == (match evt@ {
            StreamView::Assistant { content, session_id } => blocks_paths(content),
            _ => Seq::empty(),
        }),
{
    let mut out: Vec<String> = Vec::new();
    assert(text::texts(out@) =~= Seq::<Seq<char>>::empty());
    match evt {
        StreamEvent::Assistant { message, session_id: _ } => {
            let ghost all = block_views(message.content@);
            let mut i: usize = 0;
            assert(all.take(0).len() == 0);
            while i < message.content.len()
                invariant
                    i <= message.content@.len(),
                    all == block_views(message.content@),
                    text::texts(out@) == blocks_paths(all.take(i as int)),
                decreases message.content@.len() - i,
            {
                assert(all.take(i + 1).drop_last() =~= all.take(i as int));
                assert(all.take(i + 1).last() == message.content@[i as int]@);
                let ghost start = text::texts(out@);
                match &message.content[i] {
                    ContentBlock::Text { text } => {
                        let mut found: Vec<String> = paths::find_absolute_paths(text.as_str());
                        let ghost f = text::texts(found@);
                        let ghost a = out@;
                        let ghost b = found@;
                        out.append(&mut found);
                        assert(out@ =~= a + b);
                        assert(text::texts(out@) =~= start + f);
                    },
                    _ => {
                        assert(start =~= start + Seq::<Seq<char>>::empty());
                    },
                }
                i = i + 1;
            }
            assert(all.take(i as int) =~= all);
        },
        _ => {},
    }
    out
}

/// Every turn ends: the frame that closes it always ends in `Done` with the
/// current session id, after an error where there was one.
pub proof fn result_always_ends_the_turn(
    agent: Seq<char>,
    subtype: Option<Seq<char>>,
    session_id: Option<Seq<char>>,
    is_error: Option<bool>,
    errors: Option<Seq<Seq<char>>>,
    sid: Seq<char>,
    files: Seq<FileFact>,
)
    ensures
        ({
            let (id, r) = meaning(
                agent,
                StreamView::Result { subtype, session_id, is_error, errors },
                sid,
                files,
            );
            &&& r.len() > 0
            &&& r.last() == (types::EventView::Done { session_id: id })
            &&& (r.len() == 2) == (is_error == Some(true))
        }),
{
}

/// Only an event that carries a session id changes it.
pub proof fn session_id_moves_only_when_told(
    agent: Seq<char>,
    e: StreamView,
    sid: Seq<char>,
    files: Seq<FileFact>,
)
    ensures
        meaning(agent, e, sid, files).0 == sid || (match e {
            StreamView::System { subtype, session_id } => session_id,
            StreamView::User { session_id } => session_id,
            StreamView::Assistant { content, session_id } => session_id,
            StreamView::StreamEvent { session_id, event } => session_id,
            StreamView::Result { subtype, session_id, is_error, errors } => session_id,
            StreamView::ControlRequest { request_id, request } => None,
        }) == Some(meaning(agent, e, sid, files).0),
{
}

proof fn lemma_kinds()
    ensures
        "stream_event"@ != "control_request"@,
        "stream_event"@ != "assistant"@,
        "assistant"@ != "control_request"@,
        "result"@ != "control_request"@,
        "result"@ != "assistant"@,
        "result"@ != "stream_event"@,
        "result"@ != "system"@,
        "result"@ != "user"@,
        "system"@ != "control_request"@,
        "system"@ != "assistant"@,
        "system"@ != "stream_event"@,
        "user"@ != "control_request"@,
        "user"@ != "assistant"@,
        "user"@ != "stream_event"@,
        "user"@ != "system"@,
        "tool_use"@ != "text"@,
        "tool_result"@ != "text"@,
        "tool_result"@ != "tool_use"@,
        "interrupt"@ != "permission_request"@,
{
    reveal_strlit("stream_event");
    reveal_strlit("control_request");
    reveal_strlit("assistant");
    reveal_strlit("result");
    reveal_strlit("system");
    reveal_strlit("user");
    reveal_strlit("tool_use");
    reveal_strlit("tool_result");
    reveal_strlit("text");
    reveal_strlit("interrupt");
    reveal_strlit("permission_request");
    assert("system"@[0] == 's' && "result"@[0] == 'r');
    assert("stream_event"@.len() == 12 && "control_request"@.len() == 15);
    assert("user"@.len() == 4 && "system"@.len() == 6);
    assert("text"@.len() == 4 && "tool_use"@.len() == 8 && "tool_result"@.len() == 11);
    assert("interrupt"@.len() == 9 && "permission_request"@.len() == 18);
    assert("assistant"@.len() == 9 && "result"@.len() == 6);
}

/// What a line of the agent says it is, and to which session it belongs.
pub open spec fn line_of(j: json::JsonView, kind: Seq<char>, id: Option<Seq<char>>) -> bool {
    &&& j is Object
    &&& j.get_text("type"@) == Some(kind)
    &&& match id {
        Some(id) => j.get("session_id"@) == Some(json::JsonView::Str(id)),
        None => j.get("session_id"@) is None,
    }
}

/// A line with a text delta is a part of the answer, whatever its text: it is
/// shown as a text that is not complete, and as nothing else.
pub proof fn delta_is_partial_text(
    j: json::JsonView,
    e: json::JsonView,
    d: json::JsonView,
    t: Seq<char>,
    id: Option<Seq<char>>,
    agent: Seq<char>,
    sid: Seq<char>,
    files: Seq<FileFact>,
)
    requires
        line_of(j, "stream_event"@, id),
        j.get("event"@) == Some(e),
        e is Object,
        e.get_text("type"@) == Some("content_block_delta"@),
        e.get("index"@) is None,
        e.get("delta"@) == Some(d),
        d is Object,
        d.get_text("type"@) == Some("text_delta"@),
        d.get_text("text"@) == Some(t),
    ensures
        event_from(j) matches Some(v) && ({
            let (s, r) = meaning(agent, v, sid, files);
            &&& s == (match id {
                Some(id) => id,
                None => sid,
            })
            &&& t.len() > 0 ==> r == seq![
                types::EventView::AssistantText { text: t, partial: true },
            ]
            &&& t.len() == 0 ==> r.len() == 0
        }),
{
    lemma_kinds();
}

proof fn lemma_one_block(b: json::JsonView)
    ensures
        blocks_from(seq![b]) == (match block_from(b) {
            Some(v) => Some(seq![v]),
            None => None,
        }),
{
    reveal_with_fuel(blocks_from, 2);
    assert(seq![b].drop_last() =~= Seq::<json::JsonView>::empty());
    assert(seq![b].last() == b);
    if let Some(v) = block_from(b) {
        assert(Seq::<BlockView>::empty().push(v) =~= seq![v]);
    }
}

/// A line with a complete message of one text is that text, complete, followed by
/// nothing but files.
pub proof fn message_is_complete_text(
    j: json::JsonView,
    m: json::JsonView,
    b: json::JsonView,
    t: Seq<char>,
    id: Option<Seq<char>>,
    agent: Seq<char>,
    sid: Seq<char>,
    files: Seq<FileFact>,
)
    requires
        line_of(j, "assistant"@, id),
        j.get("message"@) == Some(m),
        m is Object,
        m.get("content"@) == Some(json::JsonView::Array(seq![b])),
        b is Object,
        b.get_text("type"@) == Some("text"@),
        b.get_text("text"@) == Some(t),
        t.len() > 0,
    ensures
        event_from(j) matches Some(v) && ({
            let (s, r) = meaning(agent, v, sid, files);
            &&& s == (match id {
                Some(id) => id,
                None => sid,
            })
            &&& r.len() >= 1
            &&& r[0] == (types::EventView::AssistantText { text: t, partial: false })
            &&& forall|i: int| 1 <= i < r.len() ==> (#[trigger] r[i]) is AssistantAttachment
        }),
{
    lemma_kinds();
    lemma_one_block(b);
    reveal_with_fuel(blocks_events, 2);
    let v = BlockView::Text { text: t };
    assert(block_from(b) == Some(v));
    assert(seq![v].drop_last() =~= Seq::<BlockView>::empty());
    assert(seq![v].last() == v);
    assert(blocks_events(seq![v], files) =~= block_events(v, files));
}

/// A line with a tool call announces that tool under that id.
pub proof fn tool_call_is_announced(
    j: json::JsonView,
    m: json::JsonView,
    b: json::JsonView,
    tool: Seq<char>,
    call: Seq<char>,
    id: Option<Seq<char>>,
    agent: Seq<char>,
    sid: Seq<char>,
    files: Seq<FileFact>,
)
    requires
        line_of(j, "assistant"@, id),
        j.get("message"@) == Some(m),
        m is Object,
        m.get("content"@) == Some(json::JsonView::Array(seq![b])),
        b is Object,
        b.get_text("type"@) == Some("tool_use"@),
        b.get_text("id"@) == Some(call),
        b.get_text("name"@) == Some(tool),
    ensures
        event_from(j) matches Some(v) && meaning(agent, v, sid, files).1 == seq![
            types::EventView::ToolStart { name: tool, id: call },
        ],
{
    lemma_kinds();
    lemma_one_block(b);
    reveal_with_fuel(blocks_events, 2);
    let v = block_from(b)->Some_0;
    assert(seq![v].drop_last() =~= Seq::<BlockView>::empty());
    assert(seq![v].last() == v);
    assert(blocks_events(seq![v], files) =~= block_events(v, files));
}

/// A message means what its blocks mean, one behind the other.
pub proof fn messages_mean_their_blocks_in_order(
    a: Seq<BlockView>,
    b: Seq<BlockView>,
    files: Seq<FileFact>,
)
    ensures
        blocks_events(a + b, files) == blocks_events(a, files) + blocks_events(b, files),
    decreases b.len(),
{
    if b.len() == 0 {
        assert(a + b =~= a);
        assert(blocks_events(a, files) + blocks_events(b, files) =~= blocks_events(a, files));
    } else {
        messages_mean_their_blocks_in_order(a, b.drop_last(), files);
        assert((a + b).drop_last() =~= a + b.drop_last());
        assert((a + b).last() == b.last());
        assert(blocks_events(a + b, files) =~= blocks_events(a, files) + blocks_events(b, files));
    }
}

/// A question for permission is put to the user under the id that the answer has
/// to carry, with the tool, its description and its input.
pub proof fn permission_is_asked(
    j: json::JsonView,
    q: json::JsonView,
    request: Seq<char>,
    tool: Seq<char>,
    description: Seq<char>,
    input: json::JsonView,
    agent: Seq<char>,
    sid: Seq<char>,
    files: Seq<FileFact>,
)
    requires
        j is Object,
        j.get_text("type"@) == Some("control_request"@),
        j.get_text("request_id"@) == Some(request),
        j.get("request"@) == Some(q),
        q is Object,
        q.get_text("subtype"@) == Some("permission_request"@),
        q.get_text("tool_name"@) == Some(tool),
        q.get("description"@) == Some(json::JsonView::Str(description)),
        q.get("input"@) == Some(input),
    ensures
        event_from(j) matches Some(v) && meaning(agent, v, sid, files) == (
            sid,
            seq![
                types::EventView::PermissionRequest(
                    types::PermissionView { id: request, tool_name: tool, description, input },
                ),
            ],
        ),
{
    lemma_kinds();
}

/// The line that ends a turn ends it under the session id that it carries; where
/// it says that the turn failed, the errors that it lists come first.
pub proof fn result_ends_the_turn(
    j: json::JsonView,
    id: Seq<char>,
    agent: Seq<char>,
    sid: Seq<char>,
    files: Seq<FileFact>,
    why: Seq<char>,
)
    requires
        line_of(j, "result"@, Some(id)),
        j.get("subtype"@) is None,
    ensures
        j.get("is_error"@) is None && j.get("errors"@) is None ==> (event_from(j) matches Some(v)
            && meaning(agent, v, sid, files) == (
            id,
            seq![types::EventView::Done { session_id: id }],
        )),
        j.get("is_error"@) == Some(json::JsonView::Bool(false)) && j.get("errors"@) is None ==> (
        event_from(j) matches Some(v) && meaning(agent, v, sid, files).1 == seq![
            types::EventView::Done { session_id: id },
        ]),
        j.get("is_error"@) == Some(json::JsonView::Bool(true)) && j.get("errors"@) is None ==> (
        event_from(j) matches Some(v) && meaning(agent, v, sid, files).1 == seq![
            types::EventView::Error(agent + " exited with an error"@),
            types::EventView::Done { session_id: id },
        ]),
        j.get("is_error"@) == Some(json::JsonView::Bool(true)) && j.get("errors"@) == Some(
            json::JsonView::Array(seq![json::JsonView::Str(why)]),
        ) ==> (event_from(j) matches Some(v) && meaning(agent, v, sid, files).1 == seq![
            types::EventView::Error(why),
            types::EventView::Done { session_id: id },
        ]),
{
    lemma_kinds();
    let one = seq![json::JsonView::Str(why)];
    reveal_with_fuel(strings_from, 2);
    assert(one.drop_last() =~= Seq::<json::JsonView>::empty());
    assert(one.last() == json::JsonView::Str(why));
    assert(Seq::<Seq<char>>::empty().push(why) =~= seq![why]);
    assert(strings_from(one) == Some(seq![why]));
    if let Some(v) = event_from(j) {
        let r = meaning(agent, v, sid, files).1;
        if j.get("is_error"@) == Some(json::JsonView::Bool(true)) {
            assert(r =~= seq![r[0], r[1]]);
        } else {
            assert(r =~= seq![types::EventView::Done { session_id: id }]);
        }
    }
}

/// The first line of a session carries its id and says nothing.
pub proof fn opening_line_carries_the_id(
    j: json::JsonView,
    id: Seq<char>,
    agent: Seq<char>,
    sid: Seq<char>,
    files: Seq<FileFact>,
)
    requires
        line_of(j, "system"@, Some(id)) || line_of(j, "user"@, Some(id)),
        j.get("subtype"@) is None || j.get("subtype"@)->Some_0 is Str,
    ensures
        event_from(j) matches Some(v) && meaning(agent, v, sid, files) == (
            id,
            Seq::<types::EventView>::empty(),
        ),
{
    lemma_kinds();
}

/// Of a turn of deltas and the complete message only the complete message is a
/// text that is complete; the deltas, one behind the other, are all partial.
pub proof fn only_the_message_is_complete(
    e: StreamView,
    agent: Seq<char>,
    sid: Seq<char>,
    files: Seq<FileFact>,
    i: int,
)
    requires
        0 <= i < meaning(agent, e, sid, files).1.len(),
        meaning(agent, e, sid, files).1[i] is AssistantText,
    ensures
        match meaning(agent, e, sid, files).1[i] {
            types::EventView::AssistantText { text, partial } => {
                &&& partial ==> e is StreamEvent
                &&& !partial ==> e is Assistant
                &&& text.len() > 0
            },
            _ => false,
        },
{
    if let StreamView::Assistant { content, session_id } = e {
        lemma_complete(content, files, i);
    }
}

proof fn lemma_complete(v: Seq<BlockView>, files: Seq<FileFact>, i: int)
    requires
        0 <= i < blocks_events(v, files).len(),
        blocks_events(v, files)[i] is AssistantText,
    ensures
        blocks_events(v, files)[i] matches types::EventView::AssistantText { text, partial }
            && !partial && text.len() > 0,
    decreases v.len(),
{
    if v.len() > 0 {
        let front = blocks_events(v.drop_last(), files);
        if i < front.len() {
            lemma_complete(v.drop_last(), files, i);
        } else {
            let last = block_events(v.last(), files);
            assert(blocks_events(v, files)[i] == last[i - front.len()]);
        }
    }
}

/// The texts of a message are shown in full and in order, and so are its tool
/// calls: a block that is neither adds nothing.
pub proof fn blocks_mean_what_they_hold(
    t: Seq<char>,
    id: Seq<char>,
    name: Seq<char>,
    input: json::JsonView,
    files: Seq<FileFact>,
)
    ensures
        t.len() > 0 ==> block_events(BlockView::Text { text: t }, files).len() > 0 && block_events(
            BlockView::Text { text: t },
            files,
        )[0] == (types::EventView::AssistantText { text: t, partial: false }),
        block_events(BlockView::ToolUse { id, name, input }, files) == seq![
            types::EventView::ToolStart { name, id },
        ],
        block_events(BlockView::ToolResult { tool_use_id: id, content: input }, files).len() == 0,
        block_events(BlockView::Unknown, files).len() == 0,
{
}

/// A text is followed by the files that it names, each once and in order.
pub proof fn text_is_followed_by_its_files(t: Seq<char>, files: Seq<FileFact>, i: int)
    requires
        t.len() > 0,
    ensures
        ({
            let r = block_events(BlockView::Text { text: t }, files);
            let f = paths::attachments_at(files, paths::paths_from(t, 0));
            &&& r.len() == f.len() + 1
            &&& r[0] == (types::EventView::AssistantText { text: t, partial: false })
            &&& 0 <= i < f.len() ==> r[i + 1] == types::EventView::AssistantAttachment(f[i])
        }),
{
}

/// The paths to look for are those of all texts of a message, in order.
pub proof fn paths_of_all_texts_are_looked_for(
    v: Seq<BlockView>,
    t: Seq<char>,
    id: Seq<char>,
    name: Seq<char>,
    input: json::JsonView,
)
    ensures
        blocks_paths(v.push(BlockView::Text { text: t })) == blocks_paths(v) + paths::paths_from(
            t,
            0,
        ),
        blocks_paths(v.push(BlockView::ToolUse { id, name, input })) == blocks_paths(v),
        blocks_paths(Seq::empty()).len() == 0,
{
    assert(v.push(BlockView::Text { text: t }).drop_last() =~= v);
    assert(v.push(BlockView::ToolUse { id, name, input }).drop_last() =~= v);
    assert(blocks_paths(v) + Seq::<Seq<char>>::empty() =~= blocks_paths(v));
}

/// Several errors are told one behind the other.
pub proof fn errors_are_told_together(agent: Seq<char>, v: Seq<Seq<char>>, e: Seq<char>)
    requires
        v.len() > 0,
    ensures
        error_text(agent, Some(v.push(e))) == error_text(agent, Some(v)) + "; "@ + e,
        error_text(agent, Some(seq![e])) == e,
        error_text(agent, Some(Seq::empty())) == agent + " exited with an error"@,
        error_text(agent, None) == agent + " exited with an error"@,
{
    assert(v.push(e).drop_last() =~= v);
}

/// The blocks of a message are read in order, and one that cannot be read spoils it.
pub proof fn blocks_are_read_in_order(
    a: Seq<json::JsonView>,
    v: Seq<BlockView>,
    next: json::JsonView,
    b: BlockView,
)
    requires
        blocks_from(a) == Some(v),
    ensures
        block_from(next) == Some(b) ==> blocks_from(a.push(next)) == Some(v.push(b)),
        block_from(next) is None ==> blocks_from(a.push(next)) is None,
        blocks_from(Seq::empty()) == Some(Seq::<BlockView>::empty()),
{
    assert(a.push(next).drop_last() =~= a);
}

/// A request of the agent that is not about a permission asks nothing of the user.
pub proof fn other_requests_ask_nothing(
    j: json::JsonView,
    q: json::JsonView,
    request: Seq<char>,
    subtype: Seq<char>,
    agent: Seq<char>,
    sid: Seq<char>,
    files: Seq<FileFact>,
)
    requires
        j is Object,
        j.get_text("type"@) == Some("control_request"@),
        j.get_text("request_id"@) == Some(request),
        j.get("request"@) == Some(q),
        q is Object,
        q.get_text("subtype"@) == Some(subtype),
        subtype != "permission_request"@,
    ensures
        event_from(j) matches Some(v) && meaning(agent, v, sid, files) == (
            sid,
            Seq::<types::EventView>::empty(),
        ),
{
    lemma_kinds();
}

} // verus!
