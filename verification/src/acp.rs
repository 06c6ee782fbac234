//! The Agent Client Protocol: messages, the handshake that opens a session, and
//! what the agent's notifications mean. Only the fields that matter here are
//! read; others are ignored, so that later drafts can add some.

use vstd::prelude::*;
use vstd::string::*;

use crate::codec;
use crate::json;
use crate::json::{Json, Members};
use crate::stream_event;
use crate::text;
use crate::types;
use crate::types::{Attachment, AttachmentKind, Event, PermissionRequest};

verus! {

/// The protocol version that the bridge speaks.
pub const PROTOCOL_VERSION: u32 = 1;

/// How an agent is run.
#[derive(Debug, PartialEq, Eq)]
pub struct AcpConfig {
    pub binary: String,
    pub args: Vec<String>,
    pub cwd: Option<String>,
}

/// An agent that speaks the protocol.
pub struct AcpAgent {
    pub cfg: AcpConfig,
}

impl AcpAgent {
    pub fn new(cfg: AcpConfig) -> (r: AcpAgent)
        ensures
            r.cfg == cfg,
    {
        AcpAgent { cfg }
    }

    pub fn name(&self) -> (r: &'static str)
        ensures
            r@ == "acp"@,
    {
        "acp"
    }
}

// ── Requests ────────────────────────────────────────────────────────────

pub struct ClientInfo<'a> {
    pub name: &'a str,
    pub version: &'a str,
}

pub struct FsCapabilities {
    pub read_text_file: bool,
    pub write_text_file: bool,
}

pub struct ClientCapabilities<'a> {
    pub fs: FsCapabilities,
    pub client_info: ClientInfo<'a>,
}

/// The parameters of `initialize`.
pub struct InitializeParams<'a> {
    pub protocol_version: u32,
    pub client_capabilities: ClientCapabilities<'a>,
}

pub open spec fn info_json(c: ClientInfo) -> json::JsonView {
    json::JsonView::Object(
        seq![
            ("name"@, json::JsonView::Str(c.name@)),
            ("version"@, json::JsonView::Str(c.version@)),
        ],
    )
}

pub open spec fn fs_json(c: FsCapabilities) -> json::JsonView {
    json::JsonView::Object(
        seq![
            ("readTextFile"@, json::JsonView::Bool(c.read_text_file)),
            ("writeTextFile"@, json::JsonView::Bool(c.write_text_file)),
        ],
    )
}

pub open spec fn capabilities_json(c: ClientCapabilities) -> json::JsonView {
    json::JsonView::Object(
        seq![("fs"@, fs_json(c.fs)), ("clientInfo"@, info_json(c.client_info))],
    )
}

pub open spec fn initialize_json(p: InitializeParams) -> json::JsonView {
    json::JsonView::Object(
        seq![
            ("protocolVersion"@, json::int_json(p.protocol_version as int)),
            ("clientCapabilities"@, capabilities_json(p.client_capabilities)),
        ],
    )
}

impl<'a> ClientInfo<'a> {
    pub fn to_json(&self) -> (r: Json)
        ensures
            r@ == info_json(*self),
    {
        let m: Members = Members::new().with_str("name", self.name).with_str(
            "version",
            self.version,
        );
        assert(m@ =~= info_json(*self)->Object_0);
        m.object()
    }
}

impl FsCapabilities {
    pub fn to_json(&self) -> (r: Json)
        ensures
            r@ == fs_json(*self),
    {
        let m: Members = Members::new().with("readTextFile", Json::Bool(self.read_text_file)).with(
            "writeTextFile",
            Json::Bool(self.write_text_file),
        );
        assert(m@ =~= fs_json(*self)->Object_0);
        m.object()
    }
}

impl<'a> ClientCapabilities<'a> {
    pub fn to_json(&self) -> (r: Json)
        ensures
            r@ == capabilities_json(*self),
    {
        let m: Members = Members::new().with("fs", self.fs.to_json()).with(
            "clientInfo",
            self.client_info.to_json(),
        );
        assert(m@ =~= capabilities_json(*self)->Object_0);
        m.object()
    }
}

impl<'a> InitializeParams<'a> {
    pub fn to_json(&self) -> (r: Json)
        ensures
            r@ == initialize_json(*self),
    {
        let m: Members = Members::new().with(
            "protocolVersion",
            json::count_json(self.protocol_version as u64),
        ).with("clientCapabilities", self.client_capabilities.to_json());
        assert(m@ =~= initialize_json(*self)->Object_0);
        m.object()
    }
}

/// The parameters of `session/new`.
pub struct SessionNewParams<'a> {
    pub cwd: &'a str,
    pub mcp_servers: Vec<Json>,
}

pub open spec fn session_new_json(cwd: Seq<char>, mcp_servers: Seq<json::JsonView>) -> json::JsonView {
    json::JsonView::Object(
        seq![
            ("cwd"@, json::JsonView::Str(cwd)),
            ("mcpServers"@, json::JsonView::Array(mcp_servers)),
        ],
    )
}

impl<'a> SessionNewParams<'a> {
    pub fn into_json(self) -> (r: Json)
        ensures
            r@ == session_new_json(self.cwd@, json::json_views(self.mcp_servers@)),
    {
        let ghost want = session_new_json(
            self.cwd@,
            json::json_views(self.mcp_servers@),
        )->Object_0;
        let m: Members = Members::new().with_str("cwd", self.cwd).with(
            "mcpServers",
            json::array_json(self.mcp_servers),
        );
        assert(m@ =~= want);
        m.object()
    }
}

/// The parameters of `session/load`.
pub open spec fn session_load_json(id: Seq<char>, cwd: Seq<char>) -> json::JsonView {
    json::JsonView::Object(
        seq![("sessionId"@, json::JsonView::Str(id)), ("cwd"@, json::JsonView::Str(cwd))],
    )
}

fn make_session_load(id: &str, cwd: &str) -> (r: Json)
    ensures
        r@ == session_load_json(id@, cwd@),
{
    let m: Members = Members::new().with_str("sessionId", id).with_str("cwd", cwd);
    assert(m@ =~= session_load_json(id@, cwd@)->Object_0);
    m.object()
}

/// Where an image comes from.
#[derive(Debug, PartialEq, Eq)]
pub enum ImageSource {
    Base64 { media_type: String, data: String },
    Path { path: String, media_type: String },
}

/// One block of a prompt.
#[derive(Debug, PartialEq, Eq)]
pub enum PromptBlock {
    Text { text: String },
    Image { source: ImageSource },
}

pub open spec fn source_json(s: ImageSource) -> json::JsonView {
    match s {
        ImageSource::Base64 { media_type, data } => json::JsonView::Object(
            seq![
                ("type"@, json::JsonView::Str("base64"@)),
                ("mediaType"@, json::JsonView::Str(media_type@)),
                ("data"@, json::JsonView::Str(data@)),
            ],
        ),
        ImageSource::Path { path, media_type } => json::JsonView::Object(
            seq![
                ("type"@, json::JsonView::Str("path"@)),
                ("path"@, json::JsonView::Str(path@)),
                ("mediaType"@, json::JsonView::Str(media_type@)),
            ],
        ),
    }
}

pub open spec fn prompt_block_json(b: PromptBlock) -> json::JsonView {
    match b {
        PromptBlock::Text { text } => json::JsonView::Object(
            seq![
                ("type"@, json::JsonView::Str("text"@)),
                ("text"@, json::JsonView::Str(text@)),
            ],
        ),
        PromptBlock::Image { source } => json::JsonView::Object(
            seq![("type"@, json::JsonView::Str("image"@)), ("source"@, source_json(source))],
        ),
    }
}

impl ImageSource {
    pub fn to_json(&self) -> (r: Json)
        ensures
            r@ == source_json(*self),
    {
        let m: Members = match self {
            ImageSource::Base64 { media_type, data } => Members::new().with_str(
                "type",
                "base64",
            ).with_str("mediaType", media_type.as_str()).with_str("data", data.as_str()),
            ImageSource::Path { path, media_type } => Members::new().with_str(
                "type",
                "path",
            ).with_str("path", path.as_str()).with_str("mediaType", media_type.as_str()),
        };
        assert(m@ =~= source_json(*self)->Object_0);
        m.object()
    }
}

impl PromptBlock {
    pub fn to_json(&self) -> (r: Json)
        ensures
            r@ == prompt_block_json(*self),
    {
        let m: Members = match self {
            PromptBlock::Text { text } => Members::new().with_str("type", "text").with_str(
                "text",
                text.as_str(),
            ),
            PromptBlock::Image { source } => Members::new().with_str("type", "image").with(
                "source",
                source.to_json(),
            ),
        };
        assert(m@ =~= prompt_block_json(*self)->Object_0);
        m.object()
    }
}

/// The parameters of `session/prompt`.
pub struct PromptParams<'a> {
    pub session_id: &'a str,
    pub prompt: Vec<PromptBlock>,
}

pub open spec fn prompt_json(id: Seq<char>, blocks: Seq<json::JsonView>) -> json::JsonView {
    json::JsonView::Object(
        seq![
            ("sessionId"@, json::JsonView::Str(id)),
            ("prompt"@, json::JsonView::Array(blocks)),
        ],
    )
}

pub open spec fn blocks_json(v: Seq<PromptBlock>) -> Seq<json::JsonView> {
    Seq::new(v.len(), |i: int| prompt_block_json(v[i]))
}

impl<'a> PromptParams<'a> {
    pub fn to_json(&self) -> (r: Json)
        ensures
            r@ == prompt_json(self.session_id@, blocks_json(self.prompt@)),
    {
        let mut items: Vec<Json> = Vec::new();
        let mut i: usize = 0;
        while i < self.prompt.len()
            invariant
                i <= self.prompt@.len(),
                items@.len() == i,
                forall|j: int|
                    0 <= j < i ==> (#[trigger] items@[j])@ == prompt_block_json(self.prompt@[j]),
            decreases self.prompt@.len() - i,
        {
            items.push(self.prompt[i].to_json());
            i = i + 1;
        }
        proof {
            json::lemma_json_views(items@);
            assert(json::json_views(items@) =~= blocks_json(self.prompt@));
        }
        let m: Members = Members::new().with_str("sessionId", self.session_id).with(
            "prompt",
            json::array_json(items),
        );
        assert(m@ =~= prompt_json(self.session_id@, blocks_json(self.prompt@))->Object_0);
        m.object()
    }
}

/// The block of an attachment: an image is named by its path, any other file
/// is mentioned.
pub open spec fn attachment_prompt(a: Attachment) -> json::JsonView {
    if a.kind == AttachmentKind::Image {
        json::JsonView::Object(
            seq![
                ("type"@, json::JsonView::Str("image"@)),
                (
                    "source"@,
                    json::JsonView::Object(
                        seq![
                            ("type"@, json::JsonView::Str("path"@)),
                            ("path"@, json::JsonView::Str(a.path@)),
                            ("mediaType"@, json::JsonView::Str(a.mime@)),
                        ],
                    ),
                ),
            ],
        )
    } else {
        json::JsonView::Object(
            seq![
                ("type"@, json::JsonView::Str("text"@)),
                ("text"@, json::JsonView::Str("[attachment: "@ + a.path@ + "]"@)),
            ],
        )
    }
}

/// The blocks of a turn: the prompt, unless it is empty, and the attachments.
pub open spec fn turn_prompt(prompt: Seq<char>, attachments: Seq<Attachment>) -> Seq<
    json::JsonView,
> {
    let head: Seq<json::JsonView> = if prompt.len() == 0 {
        Seq::empty()
    } else {
        seq![
            json::JsonView::Object(
                seq![
                    ("type"@, json::JsonView::Str("text"@)),
                    ("text"@, json::JsonView::Str(prompt)),
                ],
            ),
        ]
    };
    head + Seq::new(attachments.len(), |i: int| attachment_prompt(attachments[i]))
}

fn attachment_block(a: &Attachment) -> (r: PromptBlock)
    ensures
        prompt_block_json(r) == attachment_prompt(*a),
{
    if a.kind == AttachmentKind::Image {
        PromptBlock::Image {
            source: ImageSource::Path { path: a.path.clone(), media_type: a.mime.clone() },
        }
    } else {
        PromptBlock::Text { text: text::concat3("[attachment: ", a.path.as_str(), "]") }
    }
}

/// The parameters of the `session/prompt` request of a turn.
pub fn turn_params(session_id: &str, prompt: &str, attachments: &Vec<Attachment>) -> (r: Json)
    ensures
        r@ == prompt_json(session_id@, turn_prompt(prompt@, attachments@)),
{
    let mut blocks: Vec<PromptBlock> = Vec::new();
    if prompt.unicode_len() > 0 {
        blocks.push(PromptBlock::Text { text: prompt.to_string() });
    }
    let ghost head = blocks@;
    let mut i: usize = 0;
    while i < attachments.len()
        invariant
            i <= attachments@.len(),
            blocks@.len() == head.len() + i,
            forall|j: int| 0 <= j < head.len() ==> (#[trigger] blocks@[j]) == head[j],
            forall|j: int|
                head.len() <= j < blocks@.len() ==> prompt_block_json(#[trigger] blocks@[j])
                    == attachment_prompt(attachments@[j - head.len()]),
        decreases attachments@.len() - i,
    {
        blocks.push(attachment_block(&attachments[i]));
        i = i + 1;
    }
    assert(blocks_json(blocks@) =~= turn_prompt(prompt@, attachments@));
    PromptParams { session_id, prompt: blocks }.to_json()
}

/// The parameters of the notification that answers a permission request.
pub open spec fn answer_json(session_id: Seq<char>, id: Seq<char>, allow: bool) -> json::JsonView {
    json::JsonView::Object(
        seq![
            ("sessionId"@, json::JsonView::Str(session_id)),
            ("requestId"@, json::JsonView::Str(id)),
            (
                "outcome"@,
                json::JsonView::Object(
                    seq![
                        (
                            "type"@,
                            json::JsonView::Str(
                                if allow {
                                    "allowed"@
                                } else {
                                    "denied"@
                                },
                            ),
                        ),
                    ],
                ),
            ),
        ],
    )
}

/// The parameters of the notification that answers a permission request.
pub fn answer_params(session_id: &str, id: &str, allow: bool) -> (r: Json)
    ensures
        r@ == answer_json(session_id@, id@, allow),
{
    let outcome: Members = Members::new().with_str(
        "type",
        if allow {
            "allowed"
        } else {
            "denied"
        },
    );
    let ghost inner = outcome@;
    let m: Members = Members::new().with_str("sessionId", session_id).with_str(
        "requestId",
        id,
    ).with("outcome", outcome.object());
    proof {
        let want = answer_json(session_id@, id@, allow)->Object_0;
        assert(inner =~= want[2].1->Object_0);
        assert(m@ =~= want);
    }
    m.object()
}

/// The parameters of `session/cancel`.
pub open spec fn cancel_json(session_id: Seq<char>) -> json::JsonView {
    json::JsonView::Object(seq![("sessionId"@, json::JsonView::Str(session_id))])
}

/// The parameters of `session/cancel`.
pub fn cancel_params(session_id: &str) -> (r: Json)
    ensures
        r@ == cancel_json(session_id@),
{
    let m: Members = Members::new().with_str("sessionId", session_id);
    assert(m@ =~= cancel_json(session_id@)->Object_0);
    m.object()
}

/// The request of a turn: its method and parameters.
pub fn turn_request(session_id: &str, prompt: &str, attachments: &Vec<Attachment>) -> (r: (
    String,
    Json,
))
    ensures
        r.0@ == "session/prompt"@,
        r.1@ == prompt_json(session_id@, turn_prompt(prompt@, attachments@)),
{
    ("session/prompt".to_string(), turn_params(session_id, prompt, attachments))
}

/// The notification that answers a permission request.
pub fn answer_notification(session_id: &str, id: &str, allow: bool) -> (r: (String, Json))
    ensures
        r.0@ == "session/respond_to_permission_request"@,
        r.1@ == answer_json(session_id@, id@, allow),
{
    (
        "session/respond_to_permission_request".to_string(),
        answer_params(session_id, id, allow),
    )
}

/// The notification that ends a session.
pub fn cancel_notification(session_id: &str) -> (r: (String, Json))
    ensures
        r.0@ == "session/cancel"@,
        r.1@ == cancel_json(session_id@),
{
    ("session/cancel".to_string(), cancel_params(session_id))
}

// ── The handshake ───────────────────────────────────────────────────────

/// The result of `initialize`.
#[derive(Debug, PartialEq, Eq)]
pub struct InitializeResult {
    pub protocol_version: u32,
    pub agent_capabilities: Json,
}

/// The result of `session/new`.
#[derive(Debug, PartialEq, Eq)]
pub struct SessionNewResult {
    pub session_id: String,
}

/// The fields of the answer to `initialize`.
pub open spec fn initialize_fields() -> Seq<Seq<char>> {
    seq!["protocolVersion"@, "agentCapabilities"@]
}

/// The protocol version and the capabilities of an agent; without a version it
/// is 0.
pub open spec fn initialized_from(j: json::JsonView) -> Option<(u32, json::JsonView)> {
    let j = json::as_struct(j, initialize_fields(), 0);
    let capabilities = stream_event::value_at(j, "agentCapabilities"@);
    if !(j is Object) {
        None
    } else {
        match j.get("protocolVersion"@) {
            None => Some((0u32, capabilities)),
            Some(v) => match v.number() {
                Some(n) => if n <= u32::MAX {
                    Some((n as u32, capabilities))
                } else {
                    None
                },
                None => None,
            },
        }
    }
}

/// What an agent answers to `initialize`.
pub fn read_initialized(j: &Json) -> (r: Option<InitializeResult>)
    ensures
        match r {
            Some(i) => initialized_from(j@) == Some((i.protocol_version, i.agent_capabilities@)),
            None => initialized_from(j@) is None,
        },
{
    let names: Vec<&str> = vec!["protocolVersion", "agentCapabilities"];
    assert(json::strs(names@) =~= initialize_fields());
    let j: &Json = &j.as_struct(&names, 0);
    let object: bool = match j {
        Json::Object(_) => true,
        _ => false,
    };
    if !object {
        return None;
    }
    let agent_capabilities: Json = stream_event::value_of_member(j, "agentCapabilities");
    match j.get("protocolVersion") {
        None => Some(InitializeResult { protocol_version: 0, agent_capabilities }),
        Some(v) => match v.as_number() {
            Some(n) => if n <= 4_294_967_295 {
                Some(InitializeResult { protocol_version: n as u32, agent_capabilities })
            } else {
                None
            },
            None => None,
        },
    }
}

/// The id of the session that an agent opened.
pub open spec fn session_new_from(j: json::JsonView) -> Option<Seq<char>> {
    json::as_struct(j, seq!["sessionId"@], 1).get_text("sessionId"@)
}

/// What an agent answers to `session/new`.
pub fn read_session_new(j: &Json) -> (r: Option<SessionNewResult>)
    ensures
        match r {
            Some(s) => session_new_from(j@) == Some(s.session_id@),
            None => session_new_from(j@) is None,
        },
{
    let names: Vec<&str> = vec!["sessionId"];
    assert(json::strs(names@) =~= seq!["sessionId"@]);
    let j: &Json = &j.as_struct(&names, 1);
    match j.get_text("sessionId") {
        Some(session_id) => Some(SessionNewResult { session_id }),
        None => None,
    }
}

/// How far the handshake has come.
#[derive(Debug, PartialEq, Eq)]
pub enum Handshake {
    /// `initialize` was sent.
    Initializing { cwd: String, resume: Option<String> },
    /// `session/load` was sent.
    Loading { cwd: String, id: String },
    /// `session/new` was sent.
    Creating,
    /// The session is open.
    Open { id: String },
    Failed,
}

pub enum HandshakeView {
    Initializing { cwd: Seq<char>, resume: Option<Seq<char>> },
    Loading { cwd: Seq<char>, id: Seq<char> },
    Creating,
    Open { id: Seq<char> },
    Failed,
}

impl View for Handshake {
    type V = HandshakeView;

    open spec fn view(&self) -> HandshakeView {
        match self {
            Handshake::Initializing { cwd, resume } => HandshakeView::Initializing {
                cwd: cwd@,
                resume: text::opt_text(*resume),
            },
            Handshake::Loading { cwd, id } => HandshakeView::Loading { cwd: cwd@, id: id@ },
            Handshake::Creating => HandshakeView::Creating,
            Handshake::Open { id } => HandshakeView::Open { id: id@ },
            Handshake::Failed => HandshakeView::Failed,
        }
    }
}

/// What is sent next: the notification that the client is ready, where it is
/// due, and then a request.
#[derive(Debug, PartialEq, Eq)]
pub struct Sends {
    pub notification: Option<(String, Json)>,
    pub request: Option<(String, Json)>,
}

/// The request for a session: the one to resume, or a new one.
pub open spec fn session_request(cwd: Seq<char>, resume: Option<Seq<char>>) -> (
    Seq<char>,
    json::JsonView,
) {
    match resume {
        Some(id) => ("session/load"@, session_load_json(id, cwd)),
        None => ("session/new"@, session_new_json(cwd, Seq::empty())),
    }
}

/// The notification that the client is ready.
pub open spec fn ready() -> (Seq<char>, json::JsonView) {
    ("client/initialized"@, json::JsonView::Object(Seq::empty()))
}

/// The next state, the notification that is due, and the next request.
/// The reply is a value, or none where the request failed. A session that
/// cannot be loaded is replaced by a new one; any other failure ends the
/// handshake.
pub open spec fn handshake_step(s: HandshakeView, reply: Option<json::JsonView>) -> (
    HandshakeView,
    Option<(Seq<char>, json::JsonView)>,
    Option<(Seq<char>, json::JsonView)>,
) {
    match s {
        HandshakeView::Initializing { cwd, resume } => match reply {
            None => (HandshakeView::Failed, None, None),
            Some(v) => if initialized_from(v) is None {
                (HandshakeView::Failed, None, None)
            } else {
                (
                    match resume {
                        Some(id) => HandshakeView::Loading { cwd, id },
                        None => HandshakeView::Creating,
                    },
                    Some(ready()),
                    Some(session_request(cwd, resume)),
                )
            },
        },
        HandshakeView::Loading { cwd, id } => match reply {
            Some(_) => (HandshakeView::Open { id }, None, None),
            None => (HandshakeView::Creating, None, Some(session_request(cwd, None))),
        },
        HandshakeView::Creating => match reply {
            Some(v) => match session_new_from(v) {
                Some(id) => (HandshakeView::Open { id }, None, None),
                None => (HandshakeView::Failed, None, None),
            },
            None => (HandshakeView::Failed, None, None),
        },
        HandshakeView::Open { id } => (s, None, None),
        HandshakeView::Failed => (s, None, None),
    }
}

pub open spec fn request_view(r: Option<(String, Json)>) -> Option<(Seq<char>, json::JsonView)> {
    match r {
        Some((method, params)) => Some((method@, params@)),
        None => None,
    }
}

fn make_ready() -> (r: (String, Json))
    ensures
        (r.0@, r.1@) == ready(),
{
    let m: Members = Members::new();
    assert(m@ =~= Seq::<(Seq<char>, json::JsonView)>::empty());
    ("client/initialized".to_string(), m.object())
}

fn make_session_new(cwd: &str) -> (r: (String, Json))
    ensures
        (r.0@, r.1@) == session_request(cwd@, None),
{
    let servers: Vec<Json> = Vec::new();
    assert(json::json_views(servers@) =~= Seq::<json::JsonView>::empty());
    (
        "session/new".to_string(),
        SessionNewParams { cwd, mcp_servers: servers }.into_json(),
    )
}

/// The parameters of the `initialize` request that the bridge sends.
pub open spec fn hello_json(version: Seq<char>) -> json::JsonView {
    json::JsonView::Object(
        seq![
            ("protocolVersion"@, json::int_json(1)),
            (
                "clientCapabilities"@,
                json::JsonView::Object(
                    seq![
                        (
                            "fs"@,
                            json::JsonView::Object(
                                seq![
                                    ("readTextFile"@, json::JsonView::Bool(true)),
                                    ("writeTextFile"@, json::JsonView::Bool(true)),
                                ],
                            ),
                        ),
                        (
                            "clientInfo"@,
                            json::JsonView::Object(
                                seq![
                                    ("name"@, json::JsonView::Str("ai-agent-bridge"@)),
                                    ("version"@, json::JsonView::Str(version)),
                                ],
                            ),
                        ),
                    ],
                ),
            ),
        ],
    )
}

impl Handshake {
    /// Starts a handshake: the first request and its state.
    pub fn start(cwd: &str, resume: &Option<String>, version: &str) -> (r: (
        Handshake,
        String,
        Json,
    ))
        ensures
            r.0@ == (HandshakeView::Initializing { cwd: cwd@, resume: text::opt_text(*resume) }),
            r.1@ == "initialize"@,
            r.2@ == hello_json(version@),
    {
        let params: InitializeParams = InitializeParams {
            protocol_version: PROTOCOL_VERSION,
            client_capabilities: ClientCapabilities {
                fs: FsCapabilities { read_text_file: true, write_text_file: true },
                client_info: ClientInfo { name: "ai-agent-bridge", version },
            },
        };
        (
            Handshake::Initializing { cwd: cwd.to_string(), resume: types::copy_opt(resume) },
            "initialize".to_string(),
            params.to_json(),
        )
    }

    /// Takes the reply to the last request; none where that request failed.
    pub fn advance(&mut self, reply: Option<Json>) -> (r: Sends)
        ensures
            (final(self)@, request_view(r.notification), request_view(r.request)) == handshake_step(
                old(self)@,
                match reply {
                    Some(v) => Some(v@),
                    None => None,
                },
            ),
    {
        let now: Handshake = match self {
            Handshake::Initializing { cwd, resume } => Handshake::Initializing {
                cwd: cwd.clone(),
                resume: types::copy_opt(resume),
            },
            Handshake::Loading { cwd, id } => Handshake::Loading {
                cwd: cwd.clone(),
                id: id.clone(),
            },
            Handshake::Creating => Handshake::Creating,
            Handshake::Open { id } => Handshake::Open { id: id.clone() },
            Handshake::Failed => Handshake::Failed,
        };
        let nothing: Sends = Sends { notification: None, request: None };
        match now {
            Handshake::Initializing { cwd, resume } => {
                let ok: bool = match &reply {
                    Some(v) => match read_initialized(v) {
                        Some(_) => true,
                        None => false,
                    },
                    None => false,
                };
                if !ok {
                    *self = Handshake::Failed;
                    return nothing;
                }
                match resume {
                    Some(id) => {
                        let params: Json = make_session_load(id.as_str(), cwd.as_str());
                        *self = Handshake::Loading { cwd, id };
                        Sends {
                            notification: Some(make_ready()),
                            request: Some(("session/load".to_string(), params)),
                        }
                    },
                    None => {
                        let request: (String, Json) = make_session_new(cwd.as_str());
                        *self = Handshake::Creating;
                        Sends { notification: Some(make_ready()), request: Some(request) }
                    },
                }
            },
            Handshake::Loading { cwd, id } => match reply {
                Some(_) => {
                    *self = Handshake::Open { id };
                    nothing
                },
                None => {
                    *self = Handshake::Creating;
                    Sends { notification: None, request: Some(make_session_new(cwd.as_str())) }
                },
            },
            Handshake::Creating => {
                match reply {
                    Some(v) => match read_session_new(&v) {
                        Some(s) => {
                            *self = Handshake::Open { id: s.session_id };
                        },
                        None => {
                            *self = Handshake::Failed;
                        },
                    },
                    None => {
                        *self = Handshake::Failed;
                    },
                }
                nothing
            },
            Handshake::Open { id } => nothing,
            Handshake::Failed => nothing,
        }
    }
}

/// The readiness is announced once: where the agent has answered `initialize`,
/// before a session is asked for, and never again.
pub proof fn readiness_is_announced_once(s: HandshakeView, reply: Option<json::JsonView>)
    ensures
        handshake_step(s, reply).1 is Some ==> {
            &&& s is Initializing
            &&& handshake_step(s, reply).1 == Some(ready())
            &&& handshake_step(s, reply).2 is Some
        },
        s is Initializing && handshake_step(s, reply).2 is Some ==> handshake_step(s, reply).1
            is Some,
        !(handshake_step(s, reply).0 is Initializing),
{
}

/// A session that the agent can load keeps its id.
pub proof fn loaded_session_keeps_its_id(
    cwd: Seq<char>,
    id: Seq<char>,
    hello: json::JsonView,
    loaded: json::JsonView,
)
    requires
        initialized_from(hello) is Some,
    ensures
        ({
            let asked = handshake_step(
                HandshakeView::Initializing { cwd, resume: Some(id) },
                Some(hello),
            );
            &&& asked.2 == Some(("session/load"@, session_load_json(id, cwd)))
            &&& handshake_step(asked.0, Some(loaded)).0 == (HandshakeView::Open { id })
        }),
{
}

/// A session that the agent cannot load is replaced by a new one, under the id
/// that the agent gives it: the user is not turned away.
pub proof fn lost_session_is_replaced(
    cwd: Seq<char>,
    id: Seq<char>,
    hello: json::JsonView,
    created: json::JsonView,
    fresh: Seq<char>,
)
    requires
        initialized_from(hello) is Some,
        session_new_from(created) == Some(fresh),
    ensures
        ({
            let asked = handshake_step(
                HandshakeView::Initializing { cwd, resume: Some(id) },
                Some(hello),
            );
            let retried = handshake_step(asked.0, None);
            &&& retried.2 == Some(("session/new"@, session_new_json(cwd, Seq::empty())))
            &&& handshake_step(retried.0, Some(created)).0 == (HandshakeView::Open { id: fresh })
        }),
{
}

// ── Notifications ───────────────────────────────────────────────────────

/// The body of `session/update`.
#[derive(Debug, PartialEq, Eq)]
pub struct SessionUpdate {
    pub session_id: String,
    pub update: UpdateBody,
}

#[derive(Debug, PartialEq, Eq)]
pub enum UpdateBody {
    AgentMessageChunk { content: ContentBlock },
    ToolCall { tool_call_id: String, title: Option<String>, tool_kind: Option<String> },
    ToolCallUpdate { tool_call_id: String, status: Option<String> },
    Plan { entries: Json },
    Other,
}

#[derive(Debug, PartialEq, Eq)]
pub enum ContentBlock {
    Text { text: String },
    Other,
}

pub enum UpdateView {
    /// The text, where the content is one.
    AgentMessageChunk { text: Option<Seq<char>> },
    ToolCall { id: Seq<char>, title: Option<Seq<char>>, kind: Option<Seq<char>> },
    ToolCallUpdate { id: Seq<char>, status: Option<Seq<char>> },
    Plan { entries: json::JsonView },
    Other,
}

impl View for UpdateBody {
    type V = UpdateView;

    open spec fn view(&self) -> UpdateView {
        match self {
            UpdateBody::AgentMessageChunk { content } => UpdateView::AgentMessageChunk {
                text: match content {
                    ContentBlock::Text { text } => Some(text@),
                    ContentBlock::Other => None,
                },
            },
            UpdateBody::ToolCall { tool_call_id, title, tool_kind } => UpdateView::ToolCall {
                id: tool_call_id@,
                title: text::opt_text(*title),
                kind: text::opt_text(*tool_kind),
            },
            UpdateBody::ToolCallUpdate { tool_call_id, status } => UpdateView::ToolCallUpdate {
                id: tool_call_id@,
                status: text::opt_text(*status),
            },
            UpdateBody::Plan { entries } => UpdateView::Plan { entries: entries@ },
            UpdateBody::Other => UpdateView::Other,
        }
    }
}

/// A content block: its text where it is one. Other kinds are not shown.
pub open spec fn chunk_from(j: json::JsonView) -> Option<Option<Seq<char>>> {
    match json::inner_tag(j, "type"@, seq!["text"@]) {
        None => None,
        Some(kind) => if kind == "text"@ {
            match json::as_variant(j, seq!["text"@], 1).get_text("text"@) {
                Some(t) => Some(Some(t)),
                None => None,
            }
        } else if json::lone_tag(j) {
            Some(None)
        } else {
            None
        },
    }
}

/// The body of an update. One of a kind that is not known is kept as such; one
/// that lacks a field is an error.
pub open spec fn update_from(j: json::JsonView) -> Option<UpdateView> {
    match json::plain_tag(j, "kind"@) {
        None => None,
        Some(kind) => if kind == "agent_message_chunk"@ {
            match json::as_variant(j, seq!["content"@], 1).get("content"@) {
                None => None,
                Some(c) => match chunk_from(c) {
                    Some(text) => Some(UpdateView::AgentMessageChunk { text }),
                    None => None,
                },
            }
        } else if kind == "tool_call"@ {
            let j = json::as_variant(j, seq!["toolCallId"@, "title"@, "toolKind"@], 1);
            match (
                j.get_text("toolCallId"@),
                codec::opt_text_at(j, "title"@),
                codec::opt_text_at(j, "toolKind"@),
            ) {
                (Some(id), Ok(title), Ok(kind)) => Some(UpdateView::ToolCall { id, title, kind }),
                _ => None,
            }
        } else if kind == "tool_call_update"@ {
            let j = json::as_variant(j, seq!["toolCallId"@, "status"@], 1);
            match (j.get_text("toolCallId"@), codec::opt_text_at(j, "status"@)) {
                (Some(id), Ok(status)) => Some(UpdateView::ToolCallUpdate { id, status }),
                _ => None,
            }
        } else if kind == "plan"@ {
            let j = json::as_variant(j, seq!["entries"@], 0);
            if j is Object {
                Some(UpdateView::Plan { entries: stream_event::value_at(j, "entries"@) })
            } else {
                None
            }
        } else if json::lone_tag(j) {
            Some(UpdateView::Other)
        } else {
            None
        },
    }
}

/// The session and the body of an update.
pub open spec fn session_update_from(j: json::JsonView) -> Option<(Seq<char>, UpdateView)> {
    let j = json::as_struct(j, seq!["sessionId"@, "update"@], 2);
    match (j.get_text("sessionId"@), j.get("update"@)) {
        (Some(id), Some(u)) => match update_from(u) {
            Some(u) => Some((id, u)),
            None => None,
        },
        _ => None,
    }
}

fn read_chunk(j: &Json) -> (r: Option<ContentBlock>)
    ensures
        match r {
            Some(ContentBlock::Text { text }) => chunk_from(j@) == Some(Some(text@)),
            Some(ContentBlock::Other) => chunk_from(j@) == Some(None::<Seq<char>>),
            None => chunk_from(j@) is None,
        },
{
    let names: Vec<&str> = vec!["text"];
    assert(json::strs(names@) =~= seq!["text"@]);
    let kind: String = match j.inner_tag("type", &names) {
        Some(k) => k,
        None => {
            return None;
        },
    };
    if text::same(kind.as_str(), "text") {
        match j.as_variant(&names, 1).get_text("text") {
            Some(text) => Some(ContentBlock::Text { text }),
            None => None,
        }
    } else if j.lone_tag() {
        Some(ContentBlock::Other)
    } else {
        None
    }
}

fn read_update(j: &Json) -> (r: Option<UpdateBody>)
    ensures
        match r {
            Some(u) => update_from(j@) == Some(u@),
            None => update_from(j@) is None,
        },
{
    let kind: String = match j.plain_tag("kind") {
        Some(k) => k,
        None => {
            return None;
        },
    };
    if text::same(kind.as_str(), "agent_message_chunk") {
        let names: Vec<&str> = vec!["content"];
        assert(json::strs(names@) =~= seq!["content"@]);
        let j: &Json = &j.as_variant(&names, 1);
        match j.get("content") {
            None => None,
            Some(c) => match read_chunk(c) {
                Some(content) => Some(UpdateBody::AgentMessageChunk { content }),
                None => None,
            },
        }
    } else if text::same(kind.as_str(), "tool_call") {
        let names: Vec<&str> = vec!["toolCallId", "title", "toolKind"];
        assert(json::strs(names@) =~= seq!["toolCallId"@, "title"@, "toolKind"@]);
        let j: &Json = &j.as_variant(&names, 1);
        match (
            j.get_text("toolCallId"),
            codec::opt_text_of(j, "title"),
            codec::opt_text_of(j, "toolKind"),
        ) {
            (Some(tool_call_id), Ok(title), Ok(tool_kind)) => Some(
                UpdateBody::ToolCall { tool_call_id, title, tool_kind },
            ),
            _ => None,
        }
    } else if text::same(kind.as_str(), "tool_call_update") {
        let names: Vec<&str> = vec!["toolCallId", "status"];
        assert(json::strs(names@) =~= seq!["toolCallId"@, "status"@]);
        let j: &Json = &j.as_variant(&names, 1);
        match (j.get_text("toolCallId"), codec::opt_text_of(j, "status")) {
            (Some(tool_call_id), Ok(status)) => Some(
                UpdateBody::ToolCallUpdate { tool_call_id, status },
            ),
            _ => None,
        }
    } else if text::same(kind.as_str(), "plan") {
        let names: Vec<&str> = vec!["entries"];
        assert(json::strs(names@) =~= seq!["entries"@]);
        let j: &Json = &j.as_variant(&names, 0);
        match j {
            Json::Object(_) => Some(
                UpdateBody::Plan { entries: stream_event::value_of_member(j, "entries") },
            ),
            _ => None,
        }
    } else if j.lone_tag() {
        Some(UpdateBody::Other)
    } else {
        None
    }
}

/// The update that a notification carries; none where it is malformed.
pub fn read_session_update(j: &Json) -> (r: Option<SessionUpdate>)
    ensures
        match r {
            Some(u) => session_update_from(j@) == Some((u.session_id@, u.update@)),
            None => session_update_from(j@) is None,
        },
{
    let names: Vec<&str> = vec!["sessionId", "update"];
    assert(json::strs(names@) =~= seq!["sessionId"@, "update"@]);
    let j: &Json = &j.as_struct(&names, 2);
    let session_id: String = match j.get_text("sessionId") {
        Some(s) => s,
        None => {
            return None;
        },
    };
    match j.get("update") {
        None => None,
        Some(u) => match read_update(u) {
            Some(update) => Some(SessionUpdate { session_id, update }),
            None => None,
        },
    }
}

/// The update of a text.
pub fn parse_session_update(raw: &str) -> (r: Option<SessionUpdate>)
    ensures
        match r {
            Some(u) => json::parsed(raw@) matches Some(j) && session_update_from(j) == Some(
                (u.session_id@, u.update@),
            ),
            None => json::parsed(raw@) matches Some(j) ==> session_update_from(j) is None,
        },
{
    match json::parse(raw) {
        Some(j) => read_session_update(&j),
        None => None,
    }
}

/// What an update means to the user. A text is a part of a message; a tool
/// call has ended once its status is anything but `in_progress`.
pub open spec fn update_event(u: UpdateView) -> Option<types::EventView> {
    match u {
        UpdateView::AgentMessageChunk { text: Some(text) } => if text.len() == 0 {
            None
        } else {
            Some(types::EventView::AssistantText { text, partial: true })
        },
        UpdateView::ToolCall { id, title, kind } => Some(
            types::EventView::ToolStart {
                name: match title {
                    Some(t) => t,
                    None => Seq::empty(),
                },
                id,
            },
        ),
        UpdateView::ToolCallUpdate { id, status } => if status == Some("in_progress"@) {
            None
        } else {
            Some(types::EventView::ToolEnd { id, ok: status == Some("completed"@) })
        },
        _ => None,
    }
}

/// What a `session/update` notification means in a session: nothing where it
/// is malformed or belongs to another session.
pub open spec fn notified(j: json::JsonView, sid: Seq<char>) -> Option<types::EventView> {
    match session_update_from(j) {
        Some((id, u)) => if id == sid {
            update_event(u)
        } else {
            None
        },
        None => None,
    }
}

pub open spec fn opt_event(e: Option<Event>) -> Option<types::EventView> {
    match e {
        Some(e) => Some(e@),
        None => None,
    }
}

fn event_of(u: UpdateBody) -> (r: Option<Event>)
    ensures
        opt_event(r) == update_event(u@),
{
    match u {
        UpdateBody::AgentMessageChunk { content } => match content {
            ContentBlock::Text { text } => if text.as_str().unicode_len() == 0 {
                None
            } else {
                Some(Event::AssistantText { text, partial: true })
            },
            ContentBlock::Other => None,
        },
        UpdateBody::ToolCall { tool_call_id, title, tool_kind } => {
            let name: String = match title {
                Some(t) => t,
                None => {
                    let empty: String = String::new();
                    assert(empty@ =~= Seq::<char>::empty());
                    empty
                },
            };
            Some(Event::ToolStart { name, id: tool_call_id })
        },
        UpdateBody::ToolCallUpdate { tool_call_id, status } => {
            let ok: bool = match &status {
                Some(s) => text::same(s.as_str(), "completed"),
                None => false,
            };
            let running: bool = match &status {
                Some(s) => text::same(s.as_str(), "in_progress"),
                None => false,
            };
            if running {
                None
            } else {
                Some(Event::ToolEnd { id: tool_call_id, ok })
            }
        },
        UpdateBody::Plan { entries } => None,
        UpdateBody::Other => None,
    }
}

/// The event of a `session/update` notification in the session `sid`.
pub fn translate_update(params: &Json, sid: &str) -> (r: Option<Event>)
    ensures
        opt_event(r) == notified(params@, sid@),
{
    match read_session_update(params) {
        Some(u) => if text::same(u.session_id.as_str(), sid) {
            event_of(u.update)
        } else {
            None
        },
        None => None,
    }
}

/// The body of `session/request_permission`.
#[derive(Debug, PartialEq, Eq)]
pub struct PermissionRequestParams {
    pub session_id: String,
    pub request_id: String,
    pub tool_call: Json,
    pub options: Json,
}

/// The text of a member, empty where there is none.
pub open spec fn text_or_empty(j: json::JsonView, key: Seq<char>) -> Seq<char> {
    match j.get_text(key) {
        Some(t) => t,
        None => Seq::empty(),
    }
}

fn text_of(j: &Json, key: &str) -> (r: String)
    ensures
        r@ == text_or_empty(j@, key@),
{
    match j.get_text(key) {
        Some(t) => t,
        None => {
            let empty: String = String::new();
            assert(empty@ =~= Seq::<char>::empty());
            empty
        },
    }
}

/// The fields of a permission request.
pub open spec fn permission_fields() -> Seq<Seq<char>> {
    seq!["sessionId"@, "requestId"@, "toolCall"@, "options"@]
}

/// What a `session/request_permission` notification means in a session: the
/// tool's title and kind, with the whole call. Nothing where it is malformed or
/// belongs to another session.
pub open spec fn permission_asked(j: json::JsonView, sid: Seq<char>) -> Option<types::EventView> {
    let j = json::as_struct(j, permission_fields(), 2);
    let call = stream_event::value_at(j, "toolCall"@);
    match (j.get_text("sessionId"@), j.get_text("requestId"@)) {
        (Some(s), Some(id)) => if s == sid {
            Some(
                types::EventView::PermissionRequest(
                    types::PermissionView {
                        id,
                        tool_name: text_or_empty(call, "title"@),
                        description: text_or_empty(call, "kind"@),
                        input: call,
                    },
                ),
            )
        } else {
            None
        },
        _ => None,
    }
}

fn read_permission(j: &Json) -> (r: Option<PermissionRequestParams>)
    ensures
        ({
            let j = json::as_struct(j@, permission_fields(), 2);
            match r {
                Some(p) => j.get_text("sessionId"@) == Some(p.session_id@) && j.get_text(
                    "requestId"@,
                ) == Some(p.request_id@) && p.tool_call@ == stream_event::value_at(j, "toolCall"@)
                    && p.options@ == stream_event::value_at(j, "options"@),
                None => j.get_text("sessionId"@) is None || j.get_text("requestId"@) is None,
            }
        }),
{
    let names: Vec<&str> = vec!["sessionId", "requestId", "toolCall", "options"];
    assert(json::strs(names@) =~= permission_fields());
    let j: &Json = &j.as_struct(&names, 2);
    match (j.get_text("sessionId"), j.get_text("requestId")) {
        (Some(session_id), Some(request_id)) => Some(
            PermissionRequestParams {
                session_id,
                request_id,
                tool_call: stream_event::value_of_member(j, "toolCall"),
                options: stream_event::value_of_member(j, "options"),
            },
        ),
        _ => None,
    }
}

/// The event of a `session/request_permission` notification in the session
/// `sid`.
pub fn translate_permission(params: &Json, sid: &str) -> (r: Option<Event>)
    ensures
        opt_event(r) == permission_asked(params@, sid@),
{
    match read_permission(params) {
        Some(p) => if text::same(p.session_id.as_str(), sid) {
            let tool_name: String = text_of(&p.tool_call, "title");
            let description: String = text_of(&p.tool_call, "kind");
            Some(
                Event::PermissionRequest(
                    PermissionRequest {
                        id: p.request_id,
                        tool_name,
                        description,
                        input: p.tool_call,
                    },
                ),
            )
        } else {
            None
        },
        None => None,
    }
}

/// The notifications of one session are not shown in another.
pub proof fn sessions_are_kept_apart(j: json::JsonView, sid: Seq<char>, other: Seq<char>)
    requires
        sid != other,
    ensures
        notified(j, sid) is None || notified(j, other) is None,
        permission_asked(j, sid) is None || permission_asked(j, other) is None,
{
}

// ── Laws ────────────────────────────────────────────────────────────────

proof fn lemma_update_kinds()
    ensures
        "agent_message_chunk"@.len() == 19,
        "tool_call"@.len() == 9,
        "tool_call_update"@.len() == 16,
        "plan"@.len() == 4,
{
    reveal_strlit("agent_message_chunk");
    reveal_strlit("tool_call");
    reveal_strlit("tool_call_update");
    reveal_strlit("plan");
}

/// A notification of session `sid` that reports `u`, an object of that kind.
pub open spec fn reports(
    j: json::JsonView,
    sid: Seq<char>,
    u: json::JsonView,
    kind: Seq<char>,
) -> bool {
    &&& j is Object
    &&& j.get("sessionId"@) == Some(json::JsonView::Str(sid))
    &&& j.get("update"@) == Some(u)
    &&& u is Object
    &&& u.get("kind"@) == Some(json::JsonView::Str(kind))
}

/// A chunk of the agent's message is a partial text, word for word; an empty chunk is
/// nothing.
pub proof fn chunks_are_partial_texts(
    j: json::JsonView,
    sid: Seq<char>,
    u: json::JsonView,
    c: json::JsonView,
    t: Seq<char>,
)
    requires
        reports(j, sid, u, "agent_message_chunk"@),
        u.get("content"@) == Some(c),
        c is Object,
        c.get("type"@) == Some(json::JsonView::Str("text"@)),
        c.get("text"@) == Some(json::JsonView::Str(t)),
    ensures
        t.len() > 0 ==> notified(j, sid) == Some(
            types::EventView::AssistantText { text: t, partial: true },
        ),
        t.len() == 0 ==> notified(j, sid) is None,
{
    lemma_update_kinds();
}

/// A tool call is announced under its title and its id.
pub proof fn tool_calls_are_announced(
    j: json::JsonView,
    sid: Seq<char>,
    u: json::JsonView,
    id: Seq<char>,
    title: Seq<char>,
)
    requires
        reports(j, sid, u, "tool_call"@),
        u.get("toolCallId"@) == Some(json::JsonView::Str(id)),
        u.get("toolKind"@) is None,
    ensures
        u.get("title"@) == Some(json::JsonView::Str(title)) ==> notified(j, sid) == Some(
            types::EventView::ToolStart { name: title, id },
        ),
        u.get("title"@) is None ==> notified(j, sid) == Some(
            types::EventView::ToolStart { name: Seq::empty(), id },
        ),
{
    lemma_update_kinds();
}

/// A tool call that goes on says nothing; one that is completed ended well, and one
/// with any other status did not.
pub proof fn tool_calls_end(
    j: json::JsonView,
    sid: Seq<char>,
    u: json::JsonView,
    id: Seq<char>,
    status: Seq<char>,
)
    requires
        reports(j, sid, u, "tool_call_update"@),
        u.get("toolCallId"@) == Some(json::JsonView::Str(id)),
        u.get("status"@) == Some(json::JsonView::Str(status)),
    ensures
        status == "in_progress"@ ==> notified(j, sid) is None,
        status == "completed"@ ==> notified(j, sid) == Some(
            types::EventView::ToolEnd { id, ok: true },
        ),
        status != "in_progress"@ && status != "completed"@ ==> notified(j, sid) == Some(
            types::EventView::ToolEnd { id, ok: false },
        ),
{
    lemma_update_kinds();
    reveal_strlit("in_progress");
    reveal_strlit("completed");
    assert("in_progress"@.len() == 11 && "completed"@.len() == 9);
}

/// A request for permission names the request, the tool and what it would do.
pub proof fn permission_is_asked_by_its_id(
    j: json::JsonView,
    sid: Seq<char>,
    id: Seq<char>,
    call: json::JsonView,
    title: Seq<char>,
    kind: Seq<char>,
)
    requires
        j is Object,
        j.get("sessionId"@) == Some(json::JsonView::Str(sid)),
        j.get("requestId"@) == Some(json::JsonView::Str(id)),
        j.get("toolCall"@) == Some(call),
        call.get("title"@) == Some(json::JsonView::Str(title)),
        call.get("kind"@) == Some(json::JsonView::Str(kind)),
    ensures
        permission_asked(j, sid) == Some(
            types::EventView::PermissionRequest(
                types::PermissionView { id, tool_name: title, description: kind, input: call },
            ),
        ),
{
}

/// A session that is new is asked for in its directory, once the agent said hello;
/// the agent is told that the bridge is ready, and the session has the id that the
/// agent gave it.
pub proof fn new_session_has_the_id_it_was_given(
    cwd: Seq<char>,
    hello: json::JsonView,
    created: json::JsonView,
    id: Seq<char>,
)
    requires
        hello is Object,
        hello.get("protocolVersion"@) is None,
        created is Object,
        created.get("sessionId"@) == Some(json::JsonView::Str(id)),
    ensures
        ({
            let asked = handshake_step(
                HandshakeView::Initializing { cwd, resume: None },
                Some(hello),
            );
            &&& asked.1 == Some(
                ("client/initialized"@, json::JsonView::Object(Seq::empty())),
            )
            &&& asked.2 == Some(
                (
                    "session/new"@,
                    json::JsonView::Object(
                        seq![
                            ("cwd"@, json::JsonView::Str(cwd)),
                            ("mcpServers"@, json::JsonView::Array(Seq::empty())),
                        ],
                    ),
                ),
            )
            &&& handshake_step(asked.0, Some(created)) == (
                HandshakeView::Open { id },
                None::<(Seq<char>, json::JsonView)>,
                None::<(Seq<char>, json::JsonView)>,
            )
        }),
{
}

/// A handshake that is refused fails, and one that is done stays so.
pub proof fn refused_handshake_fails(
    cwd: Seq<char>,
    resume: Option<Seq<char>>,
    id: Seq<char>,
    reply: Option<json::JsonView>,
)
    ensures
        handshake_step(HandshakeView::Initializing { cwd, resume }, None).0
            == HandshakeView::Failed,
        handshake_step(HandshakeView::Creating, None).0 == HandshakeView::Failed,
        handshake_step(HandshakeView::Open { id }, reply).0 == (HandshakeView::Open { id }),
        handshake_step(HandshakeView::Open { id }, reply).2 is None,
        handshake_step(HandshakeView::Failed, reply).0 == HandshakeView::Failed,
        handshake_step(HandshakeView::Failed, reply).2 is None,
{
}

/// Each request says what it is about, under the names that the agent knows.
pub proof fn requests_name_their_session(
    id: Seq<char>,
    cwd: Seq<char>,
    request: Seq<char>,
    blocks: Seq<json::JsonView>,
)
    ensures
        session_load_json(id, cwd) == json::JsonView::Object(
            seq![("sessionId"@, json::JsonView::Str(id)), ("cwd"@, json::JsonView::Str(cwd))],
        ),
        prompt_json(id, blocks) == json::JsonView::Object(
            seq![
                ("sessionId"@, json::JsonView::Str(id)),
                ("prompt"@, json::JsonView::Array(blocks)),
            ],
        ),
        cancel_json(id) == json::JsonView::Object(seq![("sessionId"@, json::JsonView::Str(id))]),
        answer_json(id, request, true) == json::JsonView::Object(
            seq![
                ("sessionId"@, json::JsonView::Str(id)),
                ("requestId"@, json::JsonView::Str(request)),
                (
                    "outcome"@,
                    json::JsonView::Object(seq![("type"@, json::JsonView::Str("allowed"@))]),
                ),
            ],
        ),
        answer_json(id, request, false) == json::JsonView::Object(
            seq![
                ("sessionId"@, json::JsonView::Str(id)),
                ("requestId"@, json::JsonView::Str(request)),
                (
                    "outcome"@,
                    json::JsonView::Object(seq![("type"@, json::JsonView::Str("denied"@))]),
                ),
            ],
        ),
{
}

/// A turn carries its prompt, unless it is empty, and then each attachment: an image
/// by its path and type, another file by its path.
pub proof fn turns_carry_prompt_and_files(prompt: Seq<char>, files: Seq<Attachment>, a: Attachment)
    requires
        prompt.len() > 0,
    ensures
        turn_prompt(prompt, Seq::empty()) == seq![
            json::JsonView::Object(
                seq![
                    ("type"@, json::JsonView::Str("text"@)),
                    ("text"@, json::JsonView::Str(prompt)),
                ],
            ),
        ],
        turn_prompt(Seq::empty(), Seq::empty()).len() == 0,
        a.kind == AttachmentKind::Image ==> turn_prompt(prompt, files.push(a)) == turn_prompt(
            prompt,
            files,
        ).push(
            json::JsonView::Object(
                seq![
                    ("type"@, json::JsonView::Str("image"@)),
                    (
                        "source"@,
                        json::JsonView::Object(
                            seq![
                                ("type"@, json::JsonView::Str("path"@)),
                                ("path"@, json::JsonView::Str(a.path@)),
                                ("mediaType"@, json::JsonView::Str(a.mime@)),
                            ],
                        ),
                    ),
                ],
            ),
        ),
        a.kind != AttachmentKind::Image ==> turn_prompt(prompt, files.push(a)) == turn_prompt(
            prompt,
            files,
        ).push(
            json::JsonView::Object(
                seq![
                    ("type"@, json::JsonView::Str("text"@)),
                    ("text"@, json::JsonView::Str("[attachment: "@ + a.path@ + "]"@)),
                ],
            ),
        ),
{
    let none = Seq::<Attachment>::empty();
    let text = json::JsonView::Object(
        seq![("type"@, json::JsonView::Str("text"@)), ("text"@, json::JsonView::Str(prompt))],
    );
    assert(turn_prompt(prompt, none) =~= seq![text]);
    assert(turn_prompt(prompt, files.push(a)) =~= turn_prompt(prompt, files).push(
        attachment_prompt(a),
    ));
}

/// The bridge introduces itself with the version of the protocol and with what it
/// can do.
pub proof fn bridge_introduces_itself(version: Seq<char>)
    ensures
        hello_json(version) == json::JsonView::Object(
            seq![
                ("protocolVersion"@, json::JsonView::Number("1"@)),
                (
                    "clientCapabilities"@,
                    json::JsonView::Object(
                        seq![
                            (
                                "fs"@,
                                json::JsonView::Object(
                                    seq![
                                        ("readTextFile"@, json::JsonView::Bool(true)),
                                        ("writeTextFile"@, json::JsonView::Bool(true)),
                                    ],
                                ),
                            ),
                            (
                                "clientInfo"@,
                                json::JsonView::Object(
                                    seq![
                                        ("name"@, json::JsonView::Str("ai-agent-bridge"@)),
                                        ("version"@, json::JsonView::Str(version)),
                                    ],
                                ),
                            ),
                        ],
                    ),
                ),
            ],
        ),
{
    text::decimals_are_base_ten(1, 0);
    assert(text::integer(1) == "1"@);
}

/// The agent's greeting is read with its version and what it can do; a version that
/// is no number is not a greeting.
pub proof fn greetings_are_read(j: json::JsonView, n: u32, caps: json::JsonView, t: Seq<char>)
    requires
        j is Object,
        j.get("agentCapabilities"@) == Some(caps),
    ensures
        j.get("protocolVersion"@) == Some(json::int_json(n as int)) ==> initialized_from(j) == Some(
            (n, caps),
        ),
        j.get("protocolVersion"@) is None ==> initialized_from(j) == Some((0u32, caps)),
        j.get("protocolVersion"@) == Some(json::JsonView::Str(t)) ==> initialized_from(j) is None,
        PROTOCOL_VERSION == 1,
{
    text::decimal_reads_back(n as nat);
}

/// The parts of a request are written under the names that the agent knows.
pub proof fn parts_of_requests_are_written_by_name(
    p: InitializeParams,
    cwd: Seq<char>,
    servers: Seq<json::JsonView>,
    media: String,
    data: String,
    path: String,
    t: String,
)
    ensures
        initialize_json(p) == json::JsonView::Object(
            seq![
                (
                    "protocolVersion"@,
                    json::JsonView::Number(text::integer(p.protocol_version as int)),
                ),
                (
                    "clientCapabilities"@,
                    json::JsonView::Object(
                        seq![
                            (
                                "fs"@,
                                json::JsonView::Object(
                                    seq![
                                        (
                                            "readTextFile"@,
                                            json::JsonView::Bool(
                                                p.client_capabilities.fs.read_text_file,
                                            ),
                                        ),
                                        (
                                            "writeTextFile"@,
                                            json::JsonView::Bool(
                                                p.client_capabilities.fs.write_text_file,
                                            ),
                                        ),
                                    ],
                                ),
                            ),
                            (
                                "clientInfo"@,
                                json::JsonView::Object(
                                    seq![
                                        (
                                            "name"@,
                                            json::JsonView::Str(
                                                p.client_capabilities.client_info.name@,
                                            ),
                                        ),
                                        (
                                            "version"@,
                                            json::JsonView::Str(
                                                p.client_capabilities.client_info.version@,
                                            ),
                                        ),
                                    ],
                                ),
                            ),
                        ],
                    ),
                ),
            ],
        ),
        session_new_json(cwd, servers) == json::JsonView::Object(
            seq![
                ("cwd"@, json::JsonView::Str(cwd)),
                ("mcpServers"@, json::JsonView::Array(servers)),
            ],
        ),
        source_json(ImageSource::Base64 { media_type: media, data }) == json::JsonView::Object(
            seq![
                ("type"@, json::JsonView::Str("base64"@)),
                ("mediaType"@, json::JsonView::Str(media@)),
                ("data"@, json::JsonView::Str(data@)),
            ],
        ),
        source_json(ImageSource::Path { path, media_type: media }) == json::JsonView::Object(
            seq![
                ("type"@, json::JsonView::Str("path"@)),
                ("path"@, json::JsonView::Str(path@)),
                ("mediaType"@, json::JsonView::Str(media@)),
            ],
        ),
        prompt_block_json(PromptBlock::Text { text: t }) == json::JsonView::Object(
            seq![("type"@, json::JsonView::Str("text"@)), ("text"@, json::JsonView::Str(t@))],
        ),
{
}

/// A report of another kind says nothing to the user.
pub proof fn other_reports_say_nothing(
    j: json::JsonView,
    sid: Seq<char>,
    u: json::JsonView,
    kind: Seq<char>,
)
    requires
        reports(j, sid, u, kind),
        kind != "agent_message_chunk"@,
        kind != "tool_call"@,
        kind != "tool_call_update"@,
    ensures
        notified(j, sid) is None,
{
}

} // verus!
