//! An agent that repeats what it is told: for trying out a bridge.

use vstd::prelude::*;
use vstd::string::*;

use crate::stream_event;
use crate::text;
use crate::types;
use crate::types::Event;

verus! {

pub struct EchoAgent;

impl EchoAgent {
    pub fn name(&self) -> (r: &'static str)
        ensures
            r@ == "echo"@,
    {
        "echo"
    }

    /// Every session has the same id.
    pub fn start_session(&self) -> (r: EchoSession)
        ensures
            r.id@ == "echo-1"@,
    {
        EchoSession { id: "echo-1".to_string() }
    }
}

pub struct EchoSession {
    pub id: String,
}

/// The events that answer a prompt.
pub open spec fn echoed(id: Seq<char>, prompt: Seq<char>) -> Seq<types::EventView> {
    seq![
        types::EventView::AssistantText { text: "echo: "@ + prompt, partial: false },
        types::EventView::Done { session_id: id },
    ]
}

impl EchoSession {
    /// The events that answer a prompt.
    pub fn send(&self, prompt: &str) -> (r: Vec<Event>)
        ensures
            stream_event::event_views(r@) == echoed(self.id@, prompt@),
    {
        let mut out: Vec<Event> = Vec::new();
        out.push(Event::AssistantText { text: text::concat2("echo: ", prompt), partial: false });
        out.push(Event::Done { session_id: self.id.clone() });
        assert(stream_event::event_views(out@) =~= echoed(self.id@, prompt@));
        out
    }
}

/// What is said comes back, as one complete text that ends the turn.
pub proof fn what_is_said_comes_back(id: Seq<char>, prompt: Seq<char>)
    ensures
        echoed(id, prompt) == seq![
            types::EventView::AssistantText { text: "echo: "@ + prompt, partial: false },
            types::EventView::Done { session_id: id },
        ],
{
}

} // verus!
