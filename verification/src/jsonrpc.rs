//! A JSON-RPC 2.0 client: request ids, the table of requests that wait for a
//! reply, the routes of notifications, and the frames.
//!
//! The table holds tickets: numbers by which the caller finds whoever waits.

use vstd::prelude::*;
use vstd::string::*;

use crate::handles;
use crate::json;
use crate::json::{Json, Members};
use crate::stream_event;
use crate::text;

verus! {

/// How long a request waits for its reply.
pub const DEFAULT_REQUEST_TIMEOUT_MS: u64 = 120_000;

// ── Errors ──────────────────────────────────────────────────────────────

/// The error of a reply.
#[derive(Debug, PartialEq, Eq)]
pub struct JsonRpcError {
    pub code: i64,
    pub message: String,
    pub data: Option<Json>,
}

pub struct ErrorView {
    pub code: i64,
    pub message: Seq<char>,
    pub data: Option<json::JsonView>,
}

pub open spec fn opt_view(j: Option<Json>) -> Option<json::JsonView> {
    match j {
        Some(v) => Some(v@),
        None => None,
    }
}

impl View for JsonRpcError {
    type V = ErrorView;

    open spec fn view(&self) -> ErrorView {
        ErrorView { code: self.code, message: self.message@, data: opt_view(self.data) }
    }
}

/// How an error is shown.
pub open spec fn error_message(e: ErrorView) -> Seq<char> {
    "JSON-RPC "@ + text::integer(e.code as int) + ": "@ + e.message
}

impl JsonRpcError {
    /// How the error is shown.
    pub fn message(&self) -> (r: String)
        ensures
            r@ == error_message(self@),
    {
        let head: String = text::concat3(
            "JSON-RPC ",
            text::integer_text(self.code).as_str(),
            ": ",
        );
        text::concat2(head.as_str(), self.message.as_str())
    }
}

// ── Frames ──────────────────────────────────────────────────────────────

/// The frame of a request.
pub open spec fn request_frame(id: i64, method: Seq<char>, params: json::JsonView) -> json::JsonView {
    json::JsonView::Object(
        seq![
            ("jsonrpc"@, json::JsonView::Str("2.0"@)),
            ("id"@, json::int_json(id as int)),
            ("method"@, json::JsonView::Str(method)),
            ("params"@, params),
        ],
    )
}

fn make_request_frame(id: i64, method: &str, params: Json) -> (r: Json)
    ensures
        r@ == request_frame(id, method@, params@),
{
    let ghost p = params@;
    let m: Members = Members::new().with_str("jsonrpc", "2.0").with(
        "id",
        json::number_json(id),
    ).with_str("method", method).with("params", params);
    assert(m@ =~= request_frame(id, method@, p)->Object_0);
    m.object()
}

/// The frame of a notification, which has no id.
pub open spec fn notification_frame(method: Seq<char>, params: json::JsonView) -> json::JsonView {
    json::JsonView::Object(
        seq![
            ("jsonrpc"@, json::JsonView::Str("2.0"@)),
            ("method"@, json::JsonView::Str(method)),
            ("params"@, params),
        ],
    )
}

/// The frame of a notification, which has no id.
pub fn notify(method: &str, params: Json) -> (r: Json)
    ensures
        r@ == notification_frame(method@, params@),
{
    let ghost p = params@;
    let m: Members = Members::new().with_str("jsonrpc", "2.0").with_str("method", method).with(
        "params",
        params,
    );
    assert(m@ =~= notification_frame(method@, p)->Object_0);
    m.object()
}

/// What an incoming frame is.
#[derive(Debug, PartialEq, Eq)]
pub enum Incoming {
    /// The reply to a request.
    Reply { id: i64, outcome: Result<Json, JsonRpcError> },
    Notification { method: String, params: Json },
    /// A frame of another shape: reported and dropped.
    Unknown,
}

pub enum IncomingView {
    Reply { id: i64, outcome: Result<json::JsonView, ErrorView> },
    Notification { method: Seq<char>, params: json::JsonView },
    Unknown,
}

pub open spec fn outcome_view(r: Result<Json, JsonRpcError>) -> Result<json::JsonView, ErrorView> {
    match r {
        Ok(v) => Ok(v@),
        Err(e) => Err(e@),
    }
}

impl View for Incoming {
    type V = IncomingView;

    open spec fn view(&self) -> IncomingView {
        match self {
            Incoming::Reply { id, outcome } => IncomingView::Reply {
                id: *id,
                outcome: outcome_view(*outcome),
            },
            Incoming::Notification { method, params } => IncomingView::Notification {
                method: method@,
                params: params@,
            },
            Incoming::Unknown => IncomingView::Unknown,
        }
    }
}

/// A member that may be absent; null stands for absence.
pub open spec fn present(j: json::JsonView, key: Seq<char>) -> Option<json::JsonView> {
    match j.get(key) {
        Some(json::JsonView::Null) => None,
        v => v,
    }
}

fn member_of(j: &Json, key: &str) -> (r: Option<Json>)
    ensures
        opt_view(r) == present(j@, key@),
{
    match j.get(key) {
        None => None,
        Some(v) => match v {
            Json::Null => None,
            _ => Some(v.clone()),
        },
    }
}

/// The fields of an error.
pub open spec fn error_fields() -> Seq<Seq<char>> {
    seq!["code"@, "message"@, "data"@]
}

/// The error of a reply: a code and a message.
pub open spec fn error_from(j: json::JsonView) -> Option<ErrorView> {
    let j = json::as_struct(j, error_fields(), 2);
    match (j.get("code"@), j.get_text("message"@)) {
        (Some(code), Some(message)) => match code.integer() {
            Some(code) => Some(ErrorView { code, message, data: present(j, "data"@) }),
            None => None,
        },
        _ => None,
    }
}

/// The fields of a frame.
pub open spec fn frame_fields() -> Seq<Seq<char>> {
    seq!["id"@, "method"@, "params"@, "result"@, "error"@]
}

/// What a frame is: with a method it is a notification, with an id and an
/// error or a result it is a reply. A frame whose members are of the wrong type
/// is none of them.
pub open spec fn incoming_from(j: json::JsonView) -> IncomingView {
    let j = json::as_struct(j, frame_fields(), 0);
    let id = present(j, "id"@);
    let method = present(j, "method"@);
    let error = present(j, "error"@);
    let fits = j is Object && (id matches Some(v) ==> v.integer() is Some) && (method matches Some(v)
        ==> v.text() is Some) && (error matches Some(v) ==> error_from(v) is Some);
    if !fits {
        IncomingView::Unknown
    } else {
        match (id, method, error, present(j, "result"@)) {
            (_, Some(m), _, _) => IncomingView::Notification {
                method: m.text()->Some_0,
                params: stream_event::value_at(j, "params"@),
            },
            (Some(i), None, Some(e), _) => IncomingView::Reply {
                id: i.integer()->Some_0,
                outcome: Err(error_from(e)->Some_0),
            },
            (Some(i), None, None, Some(v)) => IncomingView::Reply {
                id: i.integer()->Some_0,
                outcome: Ok(v),
            },
            _ => IncomingView::Unknown,
        }
    }
}

fn read_error(j: &Json) -> (r: Option<JsonRpcError>)
    ensures
        match r {
            Some(e) => error_from(j@) == Some(e@),
            None => error_from(j@) is None,
        },
{
    let names: Vec<&str> = vec!["code", "message", "data"];
    assert(json::strs(names@) =~= error_fields());
    let j: &Json = &j.as_struct(&names, 2);
    let code: i64 = match j.get("code") {
        None => {
            return None;
        },
        Some(c) => match c.as_integer() {
            None => {
                return None;
            },
            Some(c) => c,
        },
    };
    match j.get_text("message") {
        None => None,
        Some(message) => Some(JsonRpcError { code, message, data: member_of(j, "data") }),
    }
}

/// What an incoming frame is.
pub fn read_frame(j: &Json) -> (r: Incoming)
    ensures
        r@ == incoming_from(j@),
{
    let names: Vec<&str> = vec!["id", "method", "params", "result", "error"];
    assert(json::strs(names@) =~= frame_fields());
    let j: &Json = &j.as_struct(&names, 0);
    let object: bool = match j {
        Json::Object(_) => true,
        _ => false,
    };
    if !object {
        return Incoming::Unknown;
    }
    let id: Option<i64> = match member_of(j, "id") {
        None => None,
        Some(v) => match v.as_integer() {
            None => {
                return Incoming::Unknown;
            },
            Some(i) => Some(i),
        },
    };
    let method: Option<String> = match member_of(j, "method") {
        None => None,
        Some(v) => match v.as_text() {
            None => {
                return Incoming::Unknown;
            },
            Some(m) => Some(m),
        },
    };
    let error: Option<JsonRpcError> = match member_of(j, "error") {
        None => None,
        Some(v) => match read_error(&v) {
            None => {
                return Incoming::Unknown;
            },
            Some(e) => Some(e),
        },
    };
    match method {
        Some(method) => Incoming::Notification {
            method,
            params: stream_event::value_of_member(j, "params"),
        },
        None => match id {
            None => Incoming::Unknown,
            Some(id) => match error {
                Some(e) => Incoming::Reply { id, outcome: Err(e) },
                None => match member_of(j, "result") {
                    Some(v) => Incoming::Reply { id, outcome: Ok(v) },
                    None => Incoming::Unknown,
                },
            },
        },
    }
}

// ── The client ──────────────────────────────────────────────────────────

/// The requests that wait for a reply: their ids and tickets.
pub struct PendingMap {
    inner: dashmap::DashMap<i64, u64>,
}

impl View for PendingMap {
    type V = Map<i64, u64>;

    closed spec fn view(&self) -> Map<i64, u64> {
        handles::tickets(self.inner)
    }
}

impl PendingMap {
    pub fn new() -> (r: PendingMap)
        ensures
            r@ == Map::<i64, u64>::empty(),
    {
        PendingMap { inner: handles::tickets_new() }
    }

    pub fn insert(&mut self, id: i64, ticket: u64)
        ensures
            final(self)@ == old(self)@.insert(id, ticket),
    {
        handles::tickets_insert(&mut self.inner, id, ticket);
    }

    /// Takes the ticket of a request out of the table.
    pub fn resolve(&mut self, id: i64) -> (r: Option<u64>)
        ensures
            final(self)@ == old(self)@.remove(id),
            r == handles::ticket_at(old(self)@, id),
    {
        handles::tickets_remove(&mut self.inner, id)
    }
}

/// Where an incoming frame goes.
#[derive(Debug, PartialEq, Eq)]
pub enum Delivery {
    /// To whoever holds the ticket.
    Reply { ticket: u64, outcome: Result<Json, JsonRpcError> },
    /// To the route of the method.
    Notification { route: u64, params: Json },
    /// Nobody waits for it.
    Dropped,
}

pub enum DeliveryView {
    Reply { ticket: u64, outcome: Result<json::JsonView, ErrorView> },
    Notification { route: u64, params: json::JsonView },
    Dropped,
}

impl View for Delivery {
    type V = DeliveryView;

    open spec fn view(&self) -> DeliveryView {
        match self {
            Delivery::Reply { ticket, outcome } => DeliveryView::Reply {
                ticket: *ticket,
                outcome: outcome_view(*outcome),
            },
            Delivery::Notification { route, params } => DeliveryView::Notification {
                route: *route,
                params: params@,
            },
            Delivery::Dropped => DeliveryView::Dropped,
        }
    }
}

/// What a client knows: the next id, the tickets that wait and the routes.
#[verifier::ext_equal]
pub struct ClientView {
    pub next_id: i64,
    pub pending: Map<i64, u64>,
    pub routes: Map<Seq<char>, u64>,
}

pub struct JsonRpcClient {
    next_id: i64,
    pending: PendingMap,
    routes: dashmap::DashMap<String, u64>,
}

/// The id after an id; the last one is followed by the first.
pub open spec fn id_after(id: i64) -> i64 {
    if id == i64::MAX {
        i64::MIN
    } else {
        (id + 1) as i64
    }
}

/// Where a frame goes, and the tickets that wait afterwards.
pub open spec fn delivered(c: ClientView, f: IncomingView) -> (DeliveryView, Map<i64, u64>) {
    match f {
        IncomingView::Reply { id, outcome } => (
            match handles::ticket_at(c.pending, id) {
                Some(ticket) => DeliveryView::Reply { ticket, outcome },
                None => DeliveryView::Dropped,
            },
            c.pending.remove(id),
        ),
        IncomingView::Notification { method, params } => (
            match handles::at(c.routes, method) {
                Some(route) => DeliveryView::Notification { route, params },
                None => DeliveryView::Dropped,
            },
            c.pending,
        ),
        IncomingView::Unknown => (DeliveryView::Dropped, c.pending),
    }
}

impl View for JsonRpcClient {
    type V = ClientView;

    closed spec fn view(&self) -> ClientView {
        ClientView {
            next_id: self.next_id,
            pending: self.pending@,
            routes: handles::live(self.routes),
        }
    }
}

impl JsonRpcClient {
    /// A client that has sent nothing. Ids start at 1.
    pub fn new() -> (r: JsonRpcClient)
        ensures
            r@ == (ClientView { next_id: 1, pending: Map::empty(), routes: Map::empty() }),
    {
        JsonRpcClient { next_id: 1, pending: PendingMap::new(), routes: handles::handles_new() }
    }

    /// Sends the notifications of a method to a route.
    pub fn register_route(&mut self, method: &str, route: u64)
        ensures
            final(self)@ == (ClientView {
                routes: old(self)@.routes.insert(method@, route),
                ..old(self)@
            }),
    {
        handles::handles_insert(&mut self.routes, method.to_string(), route);
    }

    /// A request: its id and its frame. The ticket waits for the reply.
    pub fn request(&mut self, method: &str, params: Json, ticket: u64) -> (r: (i64, Json))
        ensures
            r.0 == old(self)@.next_id,
            r.1@ == request_frame(r.0, method@, params@),
            final(self)@ == (ClientView {
                next_id: id_after(old(self)@.next_id),
                pending: old(self)@.pending.insert(r.0, ticket),
                ..old(self)@
            }),
    {
        let id: i64 = self.next_id;
        self.next_id = if id == i64::MAX {
            i64::MIN
        } else {
            id + 1
        };
        self.pending.insert(id, ticket);
        (id, make_request_frame(id, method, params))
    }

    /// Gives up on a request that got no reply in time.
    pub fn timed_out(&mut self, id: i64) -> (r: Option<u64>)
        ensures
            r == handles::ticket_at(old(self)@.pending, id),
            final(self)@ == (ClientView { pending: old(self)@.pending.remove(id), ..old(self)@ }),
    {
        self.pending.resolve(id)
    }

    /// Where an incoming frame goes.
    pub fn deliver(&mut self, frame: &Json) -> (r: Delivery)
        ensures
            r@ == delivered(old(self)@, incoming_from(frame@)).0,
            final(self)@ == (ClientView {
                pending: delivered(old(self)@, incoming_from(frame@)).1,
                ..old(self)@
            }),
    {
        match read_frame(frame) {
            Incoming::Reply { id, outcome } => match self.pending.resolve(id) {
                Some(ticket) => Delivery::Reply { ticket, outcome },
                None => Delivery::Dropped,
            },
            Incoming::Notification { method, params } => match handles::handles_get(
                &self.routes,
                method.as_str(),
            ) {
                Some(route) => Delivery::Notification { route, params },
                None => Delivery::Dropped,
            },
            Incoming::Unknown => Delivery::Dropped,
        }
    }
}

/// A reply reaches the request it answers, and only once: whatever comes under
/// its id afterwards is dropped.
pub proof fn replies_are_delivered_once(
    before: ClientView,
    ticket: u64,
    first: Result<json::JsonView, ErrorView>,
    second: Result<json::JsonView, ErrorView>,
)
    ensures
        ({
            let id = before.next_id;
            let sent = ClientView {
                next_id: id_after(id),
                pending: before.pending.insert(id, ticket),
                ..before
            };
            let (got, left) = delivered(sent, IncomingView::Reply { id, outcome: first });
            let after = ClientView { pending: left, ..sent };
            &&& got == (DeliveryView::Reply { ticket, outcome: first })
            &&& delivered(after, IncomingView::Reply { id, outcome: second }).0
                == DeliveryView::Dropped
        }),
{
}

/// A request that timed out is not answered any more.
pub proof fn late_replies_are_dropped(
    c: ClientView,
    id: i64,
    outcome: Result<json::JsonView, ErrorView>,
)
    ensures
        delivered(
            ClientView { pending: c.pending.remove(id), ..c },
            IncomingView::Reply { id, outcome },
        ).0 == DeliveryView::Dropped,
{
}

/// The reply to one request leaves the others waiting.
pub proof fn replies_spare_other_requests(c: ClientView, f: IncomingView, other: i64)
    requires
        c.pending.contains_key(other),
        f matches IncomingView::Reply { id, .. } ==> id != other,
    ensures
        handles::ticket_at(delivered(c, f).1, other) == Some(c.pending[other]),
{
}

/// A frame with the id of a request and a result is the reply to it, and hands out
/// that result.
pub proof fn results_are_replies(j: json::JsonView, id: i64, v: json::JsonView)
    requires
        j is Object,
        j.get("id"@) == Some(json::int_json(id as int)),
        j.get("method"@) is None || j.get("method"@) == Some(json::JsonView::Null),
        j.get("error"@) is None || j.get("error"@) == Some(json::JsonView::Null),
        j.get("result"@) == Some(v),
        !(v is Null),
    ensures
        incoming_from(j) == (IncomingView::Reply { id, outcome: Ok(v) }),
{
    text::integer_reads_back(id as int);
}

/// A frame with the id of a request and an error is the reply to it, and hands out
/// the code and the message, whatever else it holds.
pub proof fn errors_are_replies(
    j: json::JsonView,
    id: i64,
    e: json::JsonView,
    code: i64,
    message: Seq<char>,
    data: json::JsonView,
)
    requires
        j is Object,
        j.get("id"@) == Some(json::int_json(id as int)),
        j.get("method"@) is None,
        j.get("error"@) == Some(e),
        e is Object,
        e.get("code"@) == Some(json::int_json(code as int)),
        e.get("message"@) == Some(json::JsonView::Str(message)),
        !(data is Null),
    ensures
        e.get("data"@) is None ==> incoming_from(j) == (IncomingView::Reply {
            id,
            outcome: Err(ErrorView { code, message, data: None }),
        }),
        e.get("data"@) == Some(data) ==> incoming_from(j) == (IncomingView::Reply {
            id,
            outcome: Err(ErrorView { code, message, data: Some(data) }),
        }),
{
    text::integer_reads_back(id as int);
    text::integer_reads_back(code as int);
}

/// A frame with a method is a notification of it.
pub proof fn methods_are_notifications(
    j: json::JsonView,
    method: Seq<char>,
    params: json::JsonView,
)
    requires
        j is Object,
        j.get("method"@) == Some(json::JsonView::Str(method)),
        j.get("params"@) == Some(params),
        j.get("id"@) is None,
        j.get("error"@) is None,
    ensures
        incoming_from(j) == (IncomingView::Notification { method, params }),
{
}

/// A notification goes to whoever asked for its method, with its parameters, and to
/// nobody where none did. No request is answered by it.
pub proof fn notifications_go_to_their_route(
    c: ClientView,
    method: Seq<char>,
    params: json::JsonView,
    route: u64,
)
    ensures
        delivered(
            ClientView { routes: c.routes.insert(method, route), ..c },
            IncomingView::Notification { method, params },
        ) == (DeliveryView::Notification { route, params }, c.pending),
        !c.routes.contains_key(method) ==> delivered(
            c,
            IncomingView::Notification { method, params },
        ) == (DeliveryView::Dropped, c.pending),
        delivered(c, IncomingView::Unknown) == (DeliveryView::Dropped, c.pending),
{
}

/// A reply goes to the ticket that waits for its id.
pub proof fn replies_go_to_their_ticket(
    c: ClientView,
    id: i64,
    ticket: u64,
    outcome: Result<json::JsonView, ErrorView>,
)
    requires
        c.pending.contains_pair(id, ticket),
    ensures
        delivered(c, IncomingView::Reply { id, outcome }) == (
            DeliveryView::Reply { ticket, outcome },
            c.pending.remove(id),
        ),
{
}

/// Ids count up, and start again from the lowest number behind the highest.
pub proof fn ids_count_up(id: i64)
    ensures
        id < i64::MAX ==> id_after(id) == id + 1,
        id_after(i64::MAX) == i64::MIN,
{
}

/// What is written as a notification is read as that notification by the other side,
/// and a request carries its id, its method and its parameters.
pub proof fn frames_say_what_was_asked(id: i64, method: Seq<char>, params: json::JsonView)
    ensures
        incoming_from(notification_frame(method, params)) == (IncomingView::Notification {
            method,
            params,
        }),
        request_frame(id, method, params).get("jsonrpc"@) == Some(json::JsonView::Str("2.0"@)),
        request_frame(id, method, params).get("id"@) == Some(json::int_json(id as int)),
        request_frame(id, method, params).get("method"@) == Some(json::JsonView::Str(method)),
        request_frame(id, method, params).get("params"@) == Some(params),
{
    reveal_strlit("jsonrpc");
    reveal_strlit("id");
    reveal_strlit("method");
    reveal_strlit("params");
    reveal_strlit("error");
    reveal_strlit("result");
    assert("jsonrpc"@.len() == 7 && "id"@.len() == 2 && "method"@.len() == 6 && "params"@.len() == 6);
    assert("error"@.len() == 5 && "result"@.len() == 6);
    assert("method"@[0] == 'm' && "params"@[0] == 'p' && "result"@[0] == 'r');
    let n = notification_frame(method, params)->Object_0;
    json::members_are_found_by_name(n, 1, "id"@);
    json::members_are_found_by_name(n, 2, "error"@);
    json::members_are_found_by_name(n, 2, "result"@);
    let r = request_frame(id, method, params)->Object_0;
    json::members_are_found_by_name(r, 0, "id"@);
    json::members_are_found_by_name(r, 1, "id"@);
    json::members_are_found_by_name(r, 2, "id"@);
    json::members_are_found_by_name(r, 3, "id"@);
    methods_are_notifications(notification_frame(method, params), method, params);
}

/// An error is told with its code and its message.
pub proof fn errors_are_told(e: ErrorView)
    ensures
        error_message(e) == "JSON-RPC "@ + text::integer(e.code as int) + ": "@ + e.message,
        DEFAULT_REQUEST_TIMEOUT_MS == 120 * 1_000,
{
}

/// A frame that answers nothing and announces nothing is of no known kind.
pub proof fn other_frames_are_unknown(j: json::JsonView, id: json::JsonView, t: Seq<char>)
    requires
        j is Object,
        j.get("method"@) is None,
    ensures
        j.get("id"@) is None ==> incoming_from(j) == IncomingView::Unknown,
        j.get("id"@) == Some(json::JsonView::Str(t)) ==> incoming_from(j) == IncomingView::Unknown,
        j.get("id"@) == Some(id) && j.get("error"@) is None && j.get("result"@) is None
            ==> incoming_from(j) == IncomingView::Unknown,
{
}

} // verus!
