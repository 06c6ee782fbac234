//! The data that agents, platforms and the engine exchange.

use vstd::prelude::*;
use vstd::string::*;

use crate::json;
use crate::json::Json;
use crate::text;

verus! {

/// Namespaced per-user identity, e.g. `"line:U1234"`, `"slack:C1/U1"`,
/// `"stdio:local"`.
#[derive(Debug, Hash, PartialEq, Eq)]
pub struct SessionKey(pub String);

impl View for SessionKey {
    type V = Seq<char>;

    open spec fn view(&self) -> Seq<char> {
        self.0@
    }
}

impl Clone for SessionKey {
    fn clone(&self) -> (r: SessionKey)
        ensures
            r == *self,
    {
        SessionKey(self.0.clone())
    }
}

/// The key of an identity on a platform.
pub open spec fn session_key(platform: Seq<char>, scoped: Seq<char>) -> Seq<char> {
    platform + ":"@ + scoped
}

/// What stands before the first `:` of a key, if there is one.
pub open spec fn key_platform(key: Seq<char>) -> Option<Seq<char>> {
    if key.contains(':') {
        Some(text::split(key, ':')[0])
    } else {
        None
    }
}

/// The platform of a key is the platform it was made for, as long as that name
/// holds no `:`.
pub proof fn platform_of_new_key(platform: Seq<char>, scoped: Seq<char>)
    requires
        !platform.contains(':'),
    ensures
        key_platform(session_key(platform, scoped)) == Some(platform),
{
    reveal_strlit(":");
    let key = session_key(platform, scoped);
    assert(key[platform.len() as int] == ':');
    assert forall|j: int| 0 <= j < platform.len() implies key[j] != ':' by {
        assert(key[j] == platform[j]);
        assert(platform.contains(platform[j]));
    }
    text::lemma_split_first(key, ':', platform.len() as int);
    assert(key.take(platform.len() as int) =~= platform);
}

impl SessionKey {
    pub fn new(platform: &str, scoped: &str) -> (r: SessionKey)
        ensures
            r@ == session_key(platform@, scoped@),
    {
        SessionKey(text::concat3(platform, ":", scoped))
    }

    /// The platform part of the key.
    pub fn platform(&self) -> (r: Option<String>)
        ensures
            text::opt_text(r) == key_platform(self@),
    {
        match text::cut_at_char(self.0.as_str(), ':') {
            Some((a, _)) => {
                proof {
                    text::lemma_split_first(self@, ':', a@.len() as int);
                    assert(self@[a@.len() as int] == ':');
                }
                Some(a)
            },
            None => None,
        }
    }
}

#[derive(Clone, Copy, Debug, PartialEq, Eq, Structural)]
pub enum AttachmentKind {
    Image,
    File,
    Audio,
}

#[derive(Debug, PartialEq, Eq)]
pub struct Attachment {
    pub kind: AttachmentKind,
    pub path: String,
    pub mime: String,
    pub bytes: Option<u64>,
    /// The original filename, if known.
    pub name: Option<String>,
}

pub struct AttachmentView {
    pub kind: AttachmentKind,
    pub path: Seq<char>,
    pub mime: Seq<char>,
    pub bytes: Option<u64>,
    pub name: Option<Seq<char>>,
}

impl View for Attachment {
    type V = AttachmentView;

    open spec fn view(&self) -> AttachmentView {
        AttachmentView {
            kind: self.kind,
            path: self.path@,
            mime: self.mime@,
            bytes: self.bytes,
            name: text::opt_text(self.name),
        }
    }
}

/// A copy of an optional string.
pub fn copy_opt(s: &Option<String>) -> (r: Option<String>)
    ensures
        r == *s,
{
    match s {
        Some(t) => Some(t.clone()),
        None => None,
    }
}

impl Clone for Attachment {
    fn clone(&self) -> (r: Attachment)
        ensures
            r == *self,
    {
        Attachment {
            kind: self.kind,
            path: self.path.clone(),
            mime: self.mime.clone(),
            bytes: self.bytes,
            name: copy_opt(&self.name),
        }
    }
}

/// A copy of a list of attachments.
pub fn copy_attachments(v: &Vec<Attachment>) -> (r: Vec<Attachment>)
    ensures
        r@ == v@,
{
    let mut out: Vec<Attachment> = Vec::new();
    let mut i: usize = 0;
    while i < v.len()
        invariant
            i <= v@.len(),
            out@ == v@.take(i as int),
        decreases v@.len() - i,
    {
        out.push(v[i].clone());
        i = i + 1;
        assert(v@.take(i as int) =~= v@.take(i - 1).push(v@[i - 1]));
    }
    assert(v@.take(i as int) =~= v@);
    out
}

/// Per-platform reply context: which channel, thread or user to post to.
#[derive(Debug, PartialEq, Eq)]
pub struct ReplyCtx {
    pub channel: Option<String>,
    pub thread: Option<String>,
    pub user: Option<String>,
    /// Free-form per-platform extras.
    pub extra: Json,
}

pub struct ReplyCtxView {
    pub channel: Option<Seq<char>>,
    pub thread: Option<Seq<char>>,
    pub user: Option<Seq<char>>,
    pub extra: json::JsonView,
}

impl View for ReplyCtx {
    type V = ReplyCtxView;

    open spec fn view(&self) -> ReplyCtxView {
        ReplyCtxView {
            channel: text::opt_text(self.channel),
            thread: text::opt_text(self.thread),
            user: text::opt_text(self.user),
            extra: self.extra@,
        }
    }
}

impl Clone for ReplyCtx {
    fn clone(&self) -> (r: ReplyCtx)
        ensures
            r@ == self@,
    {
        ReplyCtx {
            channel: copy_opt(&self.channel),
            thread: copy_opt(&self.thread),
            user: copy_opt(&self.user),
            extra: self.extra.clone(),
        }
    }
}

/// The context that names nothing.
pub open spec fn empty_ctx() -> ReplyCtxView {
    ReplyCtxView { channel: None, thread: None, user: None, extra: json::JsonView::Null }
}

impl Default for ReplyCtx {
    fn default() -> (r: ReplyCtx)
        ensures
            r@ == empty_ctx(),
    {
        ReplyCtx { channel: None, thread: None, user: None, extra: Json::Null }
    }
}

/// One inbound chat message.
#[derive(Debug, PartialEq, Eq)]
pub struct Message {
    pub key: SessionKey,
    pub text: String,
    pub attachments: Vec<Attachment>,
    pub reply_ctx: ReplyCtx,
    /// Platform-side timestamp (ms since epoch) for post-restart filtering.
    pub timestamp_ms: i64,
}

pub struct MessageView {
    pub key: Seq<char>,
    pub text: Seq<char>,
    pub attachments: Seq<Attachment>,
    pub reply_ctx: ReplyCtxView,
    pub timestamp_ms: i64,
}

impl View for Message {
    type V = MessageView;

    open spec fn view(&self) -> MessageView {
        MessageView {
            key: self.key@,
            text: self.text@,
            attachments: self.attachments@,
            reply_ctx: self.reply_ctx@,
            timestamp_ms: self.timestamp_ms,
        }
    }
}

impl Clone for Message {
    fn clone(&self) -> (r: Message)
        ensures
            r@ == self@,
    {
        Message {
            key: self.key.clone(),
            text: self.text.clone(),
            attachments: copy_attachments(&self.attachments),
            reply_ctx: self.reply_ctx.clone(),
            timestamp_ms: self.timestamp_ms,
        }
    }
}

/// A tool call that the user has to allow.
#[derive(Debug, PartialEq, Eq)]
pub struct PermissionRequest {
    pub id: String,
    pub tool_name: String,
    pub description: String,
    /// Optional structured tool input for richer chat-side rendering.
    pub input: Json,
}

pub struct PermissionView {
    pub id: Seq<char>,
    pub tool_name: Seq<char>,
    pub description: Seq<char>,
    pub input: json::JsonView,
}

impl View for PermissionRequest {
    type V = PermissionView;

    open spec fn view(&self) -> PermissionView {
        PermissionView {
            id: self.id@,
            tool_name: self.tool_name@,
            description: self.description@,
            input: self.input@,
        }
    }
}

/// Streaming events that an agent session emits.
#[derive(Debug, PartialEq, Eq)]
pub enum Event {
    AssistantText { text: String, partial: bool },
    AssistantAttachment(Attachment),
    PermissionRequest(PermissionRequest),
    ToolStart { name: String, id: String },
    ToolEnd { id: String, ok: bool },
    Error(String),
    Done { session_id: String },
}

pub enum EventView {
    AssistantText { text: Seq<char>, partial: bool },
    AssistantAttachment(AttachmentView),
    PermissionRequest(PermissionView),
    ToolStart { name: Seq<char>, id: Seq<char> },
    ToolEnd { id: Seq<char>, ok: bool },
    Error(Seq<char>),
    Done { session_id: Seq<char> },
}

impl View for Event {
    type V = EventView;

    open spec fn view(&self) -> EventView {
        match self {
            Event::AssistantText { text, partial } => EventView::AssistantText {
                text: text@,
                partial: *partial,
            },
            Event::AssistantAttachment(a) => EventView::AssistantAttachment(a@),
            Event::PermissionRequest(p) => EventView::PermissionRequest(p@),
            Event::ToolStart { name, id } => EventView::ToolStart { name: name@, id: id@ },
            Event::ToolEnd { id, ok } => EventView::ToolEnd { id: id@, ok: *ok },
            Event::Error(e) => EventView::Error(e@),
            Event::Done { session_id } => EventView::Done { session_id: session_id@ },
        }
    }
}

// ── Filenames ───────────────────────────────────────────────────────────

/// What follows the last path separator.
pub open spec fn basename(s: Seq<char>) -> Seq<char>
    decreases s.len(),
{
    if s.len() == 0 || s.last() == '/' || s.last() == '\\' {
        Seq::empty()
    } else {
        basename(s.drop_last()).push(s.last())
    }
}

/// The characters that are no control characters.
pub open spec fn printable(s: Seq<char>) -> Seq<char>
    decreases s.len(),
{
    if s.len() == 0 {
        s
    } else if text::is_control(s.last()) {
        printable(s.drop_last())
    } else {
        printable(s.drop_last()).push(s.last())
    }
}

/// The first `n` characters.
pub open spec fn at_most(s: Seq<char>, n: int) -> Seq<char> {
    if s.len() <= n {
        s
    } else {
        s.take(n)
    }
}

/// `s` without the dots and white space it starts with.
pub open spec fn without_dots(s: Seq<char>) -> Seq<char>
    decreases s.len(),
{
    if s.len() > 0 && (s[0] == '.' || text::is_white(s[0])) {
        without_dots(s.drop_first())
    } else {
        s
    }
}

/// The name a remote-supplied filename is stored under.
pub open spec fn safe_name(raw: Seq<char>) -> Seq<char> {
    let trimmed = text::trim_end(without_dots(at_most(printable(basename(raw)), 200)));
    if trimmed.len() == 0 {
        "file"@
    } else {
        trimmed
    }
}

/// A name that can be joined onto a directory without leaving it or hiding
/// the file.
pub open spec fn is_safe_name(s: Seq<char>) -> bool {
    &&& 0 < s.len() <= 200
    &&& s[0] != '.'
    &&& forall|i: int|
        0 <= i < s.len() ==> (#[trigger] s[i]) != '/' && s[i] != '\\' && !text::is_control(s[i])
}

proof fn lemma_basename(s: Seq<char>)
    ensures
        forall|i: int|
            0 <= i < basename(s).len() ==> (#[trigger] basename(s)[i]) != '/' && basename(s)[i]
                != '\\',
    decreases s.len(),
{
    if s.len() > 0 && s.last() != '/' && s.last() != '\\' {
        let head = basename(s.drop_last());
        lemma_basename(s.drop_last());
        assert forall|i: int| 0 <= i < basename(s).len() implies (#[trigger] basename(s)[i]) != '/'
            && basename(s)[i] != '\\' by {
            if i < head.len() {
                assert(basename(s)[i] == head[i]);
            }
        }
    }
}

proof fn lemma_printable(s: Seq<char>)
    requires
        forall|i: int| 0 <= i < s.len() ==> (#[trigger] s[i]) != '/' && s[i] != '\\',
    ensures
        forall|i: int|
            0 <= i < printable(s).len() ==> (#[trigger] printable(s)[i]) != '/' && printable(s)[i]
                != '\\' && !text::is_control(printable(s)[i]),
    decreases s.len(),
{
    if s.len() > 0 {
        let t = s.drop_last();
        assert forall|i: int| 0 <= i < t.len() implies (#[trigger] t[i]) != '/' && t[i] != '\\' by {
            assert(t[i] == s[i]);
        }
        lemma_printable(t);
        assert forall|i: int| 0 <= i < printable(s).len() implies (#[trigger] printable(s)[i])
            != '/' && printable(s)[i] != '\\' && !text::is_control(printable(s)[i]) by {
            if i < printable(t).len() {
                assert(printable(s)[i] == printable(t)[i]);
            } else {
                assert(printable(s)[i] == s[s.len() - 1]);
            }
        }
    }
}

proof fn lemma_without_dots(s: Seq<char>)
    ensures
        exists|k: int| 0 <= k <= s.len() && without_dots(s) == #[trigger] s.skip(k),
        without_dots(s).len() > 0 ==> without_dots(s)[0] != '.' && !text::is_white(
            without_dots(s)[0],
        ),
    decreases s.len(),
{
    if s.len() > 0 && (s[0] == '.' || text::is_white(s[0])) {
        lemma_without_dots(s.drop_first());
        let k = choose|k: int|
            0 <= k <= s.drop_first().len() && without_dots(s.drop_first())
                == #[trigger] s.drop_first().skip(k);
        assert(s.drop_first().skip(k) =~= s.skip(k + 1));
    } else {
        assert(s.skip(0) =~= s);
    }
}

proof fn lemma_trim_end(s: Seq<char>)
    ensures
        text::trim_end(s).len() <= s.len(),
        text::trim_end(s) == s.take(text::trim_end(s).len() as int),
    decreases s.len(),
{
    if s.len() > 0 && text::is_white(s.last()) {
        lemma_trim_end(s.drop_last());
        let n = text::trim_end(s).len() as int;
        assert(s.drop_last().take(n) =~= s.take(n));
    } else {
        assert(s.take(s.len() as int) =~= s);
    }
}

/// Whatever the sender called a file, the name it is stored under holds no
/// path separator and no control character, does not start with a dot, is not
/// empty and is at most 200 characters long.
pub proof fn safe_name_is_safe(raw: Seq<char>)
    ensures
        is_safe_name(safe_name(raw)),
{
    reveal_strlit("file");
    lemma_basename(raw);
    lemma_printable(basename(raw));
    let capped = at_most(printable(basename(raw)), 200);
    assert forall|i: int| 0 <= i < capped.len() implies (#[trigger] capped[i]) != '/' && capped[i]
        != '\\' && !text::is_control(capped[i]) by {
        assert(capped[i] == printable(basename(raw))[i]);
    }
    lemma_without_dots(capped);
    let k = choose|k: int|
        0 <= k <= capped.len() && without_dots(capped) == #[trigger] capped.skip(k);
    let open = without_dots(capped);
    lemma_trim_end(open);
    let t = text::trim_end(open);
    if t.len() > 0 {
        assert forall|i: int| 0 <= i < t.len() implies (#[trigger] t[i]) != '/' && t[i] != '\\'
            && !text::is_control(t[i]) by {
            assert(t[i] == capped[i + k]);
        }
        assert(t[0] == open[0]);
    }
}

/// The name a remote-supplied filename is stored under: its last path
/// component without control characters, cut to 200 characters, without
/// leading dots and surrounding white space; `file` where nothing is left.
pub fn safe_filename(raw: &str) -> (r: String)
    ensures
        r@ == safe_name(raw@),
        is_safe_name(r@),
{
    proof {
        safe_name_is_safe(raw@);
    }
    let v: Vec<char> = text::chars_of(raw);
    let mut start: usize = v.len();
    assert(v@.take(start as int) =~= v@);
    assert(v@.subrange(start as int, v@.len() as int) =~= Seq::<char>::empty());
    assert(basename(v@) =~= basename(v@.take(start as int)) + v@.subrange(
        start as int,
        v@.len() as int,
    ));
    while start > 0 && v[start - 1] != '/' && v[start - 1] != '\\'
        invariant
            start <= v@.len(),
            basename(v@) == basename(v@.take(start as int)) + v@.subrange(
                start as int,
                v@.len() as int,
            ),
        decreases start,
    {
        let ghost head = v@.take(start as int);
        assert(head.drop_last() =~= v@.take(start - 1));
        start = start - 1;
        assert(basename(head) + v@.subrange(start + 1, v@.len() as int) =~= basename(
            v@.take(start as int),
        ) + v@.subrange(start as int, v@.len() as int));
    }
    assert(basename(v@.take(start as int)).len() == 0);
    assert(basename(v@) =~= v@.skip(start as int));
    let ghost base = basename(v@);
    let mut kept: Vec<char> = Vec::new();
    let mut i: usize = start;
    assert(kept@ =~= printable(base.take(0)));
    while i < v.len()
        invariant
            start <= i <= v@.len(),
            base == v@.skip(start as int),
            kept@ == printable(base.take(i - start)),
        decreases v@.len() - i,
    {
        assert(base.take(i - start + 1).drop_last() =~= base.take(i - start));
        if !text::control(v[i]) {
            kept.push(v[i]);
        }
        i = i + 1;
    }
    assert(base.take(i - start) =~= base);
    let end: usize = if kept.len() <= 200 {
        kept.len()
    } else {
        200
    };
    let ghost capped = at_most(kept@, 200);
    assert(capped =~= kept@.take(end as int));
    let mut from: usize = 0;
    assert(capped.skip(0) =~= capped);
    while from < end && (kept[from] == '.' || text::white(kept[from]))
        invariant
            from <= end <= kept@.len(),
            capped == kept@.take(end as int),
            without_dots(capped) == without_dots(capped.skip(from as int)),
        decreases end - from,
    {
        assert(capped.skip(from as int)[0] == kept@[from as int]);
        assert(capped.skip(from as int).drop_first() =~= capped.skip(from + 1));
        from = from + 1;
    }
    assert(from < end ==> capped.skip(from as int)[0] == kept@[from as int]);
    let ghost open = capped.skip(from as int);
    let mut to: usize = end;
    assert(open =~= kept@.subrange(from as int, to as int));
    while to > from && text::white(kept[to - 1])
        invariant
            from <= to <= end <= kept@.len(),
            text::trim_end(open) == text::trim_end(kept@.subrange(from as int, to as int)),
        decreases to,
    {
        assert(kept@.subrange(from as int, to as int).drop_last() =~= kept@.subrange(
            from as int,
            to - 1,
        ));
        to = to - 1;
    }
    if from == to {
        "file".to_string()
    } else {
        text::string_of(&kept, from, to)
    }
}

/// A name that may be used for a temporary file: not empty, without path
/// separators and NUL.
pub open spec fn is_temp_name(name: Seq<char>) -> bool {
    name.len() > 0 && !name.contains('/') && !name.contains('\\') && !name.contains('\0')
}

/// Whether a name may be used for a temporary file.
pub fn temp_name_ok(name: &str) -> (r: bool)
    ensures
        r == is_temp_name(name@),
{
    let v: Vec<char> = text::chars_of(name);
    let mut i: usize = 0;
    while i < v.len()
        invariant
            i <= v@.len(),
            v@ == name@,
            forall|j: int| 0 <= j < i ==> v@[j] != '/' && v@[j] != '\\' && v@[j] != '\0',
        decreases v@.len() - i,
    {
        if v[i] == '/' || v[i] == '\\' || v[i] == '\0' {
            assert(name@.contains(v@[i as int]));
            return false;
        }
        i = i + 1;
    }
    v.len() > 0
}

/// A sanitised filename may be used for a temporary file.
pub proof fn safe_name_is_temp_name(raw: Seq<char>)
    ensures
        is_temp_name(safe_name(raw)),
{
    safe_name_is_safe(raw);
}

// ── Clock ───────────────────────────────────────────────────────────────

/// The latest time that the clock reports, in milliseconds since 1970.
pub const CLOCK_MAX: i64 = 4_611_686_018_427_387_904;

/// `std::time::SystemTime::now`, in milliseconds since 1970; none where the
/// clock stands before it. Nothing is promised of the reading.
#[verifier::external_body]
fn clock_millis() -> (r: Option<u128>) {
    match std::time::SystemTime::now().duration_since(std::time::UNIX_EPOCH) {
        Ok(d) => Some(d.as_millis()),
        Err(_) => None,
    }
}

/// The reading of a clock, held between 1970 and `CLOCK_MAX`.
pub open spec fn clock_reading(millis: Option<u128>) -> int {
    match millis {
        Some(n) => if n <= CLOCK_MAX {
            n as int
        } else {
            CLOCK_MAX as int
        },
        None => 0,
    }
}

/// The reading of a clock, held between 1970 and `CLOCK_MAX`.
pub fn clock_in_range(millis: Option<u128>) -> (r: i64)
    ensures
        r == clock_reading(millis),
{
    match millis {
        Some(n) => if n <= 4_611_686_018_427_387_904 {
            n as i64
        } else {
            CLOCK_MAX
        },
        None => 0,
    }
}

/// Milliseconds since 1970.
pub fn now_ms() -> (r: i64)
    ensures
        0 <= r <= CLOCK_MAX,
{
    clock_in_range(clock_millis())
}

// ── Laws ────────────────────────────────────────────────────────────────

proof fn lemma_basename_of(dir: Seq<char>, name: Seq<char>)
    requires
        forall|i: int| 0 <= i < name.len() ==> (#[trigger] name[i]) != '/' && name[i] != '\\',
        dir.len() == 0 || dir.last() == '/' || dir.last() == '\\',
    ensures
        basename(dir + name) == name,
    decreases name.len(),
{
    let s = dir + name;
    if name.len() == 0 {
        assert(s =~= dir);
        assert(basename(s) =~= name);
    } else {
        let front = name.drop_last();
        assert(s.drop_last() =~= dir + front);
        assert(s.last() == name.last());
        assert(name[name.len() - 1] == name.last());
        assert forall|i: int| 0 <= i < front.len() implies (#[trigger] front[i]) != '/' && front[i]
            != '\\' by {
            assert(front[i] == name[i]);
        }
        lemma_basename_of(dir, front);
        assert(front.push(name.last()) =~= name);
    }
}

proof fn lemma_printable_same(s: Seq<char>)
    requires
        forall|i: int| 0 <= i < s.len() ==> !text::is_control(#[trigger] s[i]),
    ensures
        printable(s) == s,
    decreases s.len(),
{
    if s.len() > 0 {
        let t = s.drop_last();
        assert forall|i: int| 0 <= i < t.len() implies !text::is_control(#[trigger] t[i]) by {
            assert(t[i] == s[i]);
        }
        assert(s[s.len() - 1] == s.last());
        lemma_printable_same(t);
        assert(t.push(s.last()) =~= s);
    }
}

/// A plain name keeps its spelling, and of a path only the name behind the last
/// separator counts. A name of which nothing is left is `file`.
pub proof fn plain_names_are_kept(dir: Seq<char>, name: Seq<char>)
    requires
        dir.len() == 0 || dir.last() == '/' || dir.last() == '\\',
        0 < name.len() <= 200,
        forall|i: int|
            0 <= i < name.len() ==> (#[trigger] name[i]) != '/' && name[i] != '\\'
                && !text::is_control(name[i]),
        name[0] != '.',
        !text::is_white(name[0]),
        !text::is_white(name.last()),
    ensures
        safe_name(dir + name) == name,
        safe_name(dir) == "file"@,
        safe_name(dir + ".."@) == "file"@,
        safe_name(dir + "."@ + name) == name || name.len() == 200,
{
    lemma_basename_of(dir, name);
    lemma_printable_same(name);
    let none = Seq::<char>::empty();
    lemma_basename_of(dir, none);
    assert(dir + none =~= dir);
    assert(printable(none) =~= none);
    assert(without_dots(none) =~= none);
    assert(text::trim_end(none) =~= none);
    reveal_strlit("..");
    reveal_strlit(".");
    let two = ".."@;
    lemma_basename_of(dir, two);
    assert(forall|i: int| 0 <= i < two.len() ==> (#[trigger] two[i]) == '.');
    lemma_printable_same(two);
    assert(two.drop_first().drop_first() =~= none);
    assert(two.drop_first()[0] == '.');
    assert(without_dots(two.drop_first()) == without_dots(none));
    assert(without_dots(two) =~= none);
    let hidden = "."@ + name;
    assert(forall|i: int| 0 <= i < name.len() ==> hidden[i + 1] == #[trigger] name[i]);
    assert forall|i: int| 0 <= i < hidden.len() implies (#[trigger] hidden[i]) != '/' && hidden[i]
        != '\\' && !text::is_control(hidden[i]) by {
        if i > 0 {
            assert(hidden[i] == name[i - 1]);
        }
    }
    lemma_basename_of(dir, hidden);
    lemma_printable_same(hidden);
    assert(dir + hidden =~= dir + "."@ + name);
    assert(hidden.drop_first() =~= name);
    assert(hidden[0] == '.');
    assert(without_dots(hidden) == without_dots(name));
    assert(without_dots(name) == name);
    if name.len() < 200 {
        assert(at_most(printable(basename(dir + "."@ + name)), 200) == hidden);
    }
}

/// A long name is cut to its first 200 characters.
pub proof fn long_names_are_cut(name: Seq<char>)
    requires
        name.len() > 200,
        forall|i: int|
            0 <= i < name.len() ==> (#[trigger] name[i]) != '/' && name[i] != '\\'
                && !text::is_control(name[i]),
        name[0] != '.',
        !text::is_white(name[0]),
        !text::is_white(name[199]),
    ensures
        safe_name(name) == name.take(200),
{
    let none = Seq::<char>::empty();
    lemma_basename_of(none, name);
    assert(none + name =~= name);
    lemma_printable_same(name);
    let t = name.take(200);
    assert(t[0] == name[0] && t.last() == name[199]);
}

/// A conversation is named by its platform and by its place there; other places and
/// other platforms have other names.
pub proof fn keys_name_platform_and_place(
    platform: Seq<char>,
    scoped: Seq<char>,
    other: Seq<char>,
    place: Seq<char>,
)
    requires
        !platform.contains(':'),
        !other.contains(':'),
    ensures
        session_key(platform, scoped) == platform + ":"@ + scoped,
        session_key(platform, scoped) == session_key(other, place) ==> platform == other && scoped
            == place,
        key_platform(scoped) is None <==> !scoped.contains(':'),
{
    platform_of_new_key(platform, scoped);
    platform_of_new_key(other, place);
    reveal_strlit(":");
    if session_key(platform, scoped) == session_key(other, place) {
        let n = platform.len() as int + 1;
        assert(session_key(platform, scoped).skip(n) =~= scoped);
        assert(session_key(other, place).skip(n) =~= place);
    }
}

/// The clock is read in milliseconds, and a time before its start as zero.
pub proof fn clock_is_read_as_it_is(n: u128)
    ensures
        n <= 4_611_686_018_427_387_904 ==> clock_reading(Some(n)) == n,
        n > 4_611_686_018_427_387_904 ==> clock_reading(Some(n)) == 4_611_686_018_427_387_904,
        clock_reading(None) == 0,
{
}

} // verus!
