//! The terminal as a platform: for development, without credentials.

use vstd::prelude::*;
use vstd::string::*;

use crate::text;
use crate::types;
use crate::types::{Attachment, Message, ReplyCtx, SessionKey};

verus! {

pub struct StdioPlatform {
    pub user: String,
}

/// The message of a line that was typed.
pub open spec fn typed(user: Seq<char>, line: Seq<char>) -> types::MessageView {
    types::MessageView {
        key: types::session_key("stdio"@, user),
        text: line,
        attachments: Seq::empty(),
        reply_ctx: types::empty_ctx(),
        timestamp_ms: 0,
    }
}

impl StdioPlatform {
    pub fn new() -> (r: StdioPlatform)
        ensures
            r.user@ == "local"@,
    {
        StdioPlatform { user: "local".to_string() }
    }

    pub fn name(&self) -> (r: &'static str)
        ensures
            r@ == "stdio"@,
    {
        "stdio"
    }

    /// The message of a line that was typed. It has no time, so that it is
    /// never too old.
    pub fn message(&self, line: &str) -> (r: Message)
        ensures
            r@ == typed(self.user@, line@),
    {
        let attachments: Vec<Attachment> = Vec::new();
        assert(attachments@ =~= Seq::<Attachment>::empty());
        Message {
            key: SessionKey::new("stdio", self.user.as_str()),
            text: line.to_string(),
            attachments,
            reply_ctx: ReplyCtx::default(),
            timestamp_ms: 0,
        }
    }

    /// The line that stands for an attachment.
    pub fn attachment_line(&self, att: &Attachment) -> (r: String)
        ensures
            r@ == "[attachment: "@ + att.path@ + "]"@,
    {
        text::concat3("[attachment: ", att.path.as_str(), "]")
    }
}

impl Default for StdioPlatform {
    fn default() -> (r: StdioPlatform)
        ensures
            r.user@ == "local"@,
    {
        StdioPlatform::new()
    }
}

/// A line is a message as it was typed, in the one conversation of its user, and is
/// never too old.
pub proof fn lines_are_messages(user: Seq<char>, line: Seq<char>)
    ensures
        typed(user, line).text == line,
        typed(user, line).key == "stdio"@ + ":"@ + user,
        typed(user, line).attachments.len() == 0,
        typed(user, line).timestamp_ms == 0,
        typed(user, line).reply_ctx.channel is None,
        typed(user, line).reply_ctx.thread is None,
        typed(user, line).reply_ctx.user is None,
        typed(user, line).reply_ctx.extra is Null,
        types::key_platform(typed(user, line).key) == Some("stdio"@),
{
    reveal_strlit("stdio");
    assert(!"stdio"@.contains(':'));
    types::platform_of_new_key("stdio"@, user);
}

} // verus!
