//! An agent that is a command: a fresh process for every prompt. For tools that
//! have no streaming mode.

use vstd::prelude::*;
use vstd::string::*;

use crate::ids;
use crate::stream_event;
use crate::text;
use crate::types;
use crate::types::{Attachment, Event};

verus! {

#[derive(Debug, PartialEq, Eq)]
pub struct CliAgentConfig {
    pub binary: String,
    pub args: Vec<String>,
    /// Whether `--resume <id>` is passed.
    pub supports_resume: bool,
}

pub struct CliAgent {
    pub name: String,
    pub cfg: CliAgentConfig,
}

impl CliAgent {
    pub fn new(name: &str, cfg: CliAgentConfig) -> (r: CliAgent)
        ensures
            r.name@ == name@,
            r.cfg == cfg,
    {
        CliAgent { name: name.to_string(), cfg }
    }

    pub fn name(&self) -> (r: &str)
        ensures
            r@ == self.name@,
    {
        self.name.as_str()
    }

    /// Starts a session: the one to resume, or a new one under an id of its
    /// own.
    pub fn start_session(&self, resume: Option<String>) -> (r: CliSession)
        ensures
            match resume {
                Some(id) => r.session_id == id,
                None => ids::is_uuid(r.session_id@),
            },
    {
        CliSession {
            session_id: match resume {
                Some(id) => id,
                None => ids::new_id(),
            },
        }
    }
}

pub struct CliSession {
    pub session_id: String,
}

/// The arguments of a prompt: the configured ones, the session where the
/// command can resume one, and the prompt itself last.
pub open spec fn prompt_line(
    args: Seq<Seq<char>>,
    supports_resume: bool,
    id: Seq<char>,
    prompt: Seq<char>,
) -> Seq<Seq<char>> {
    let resume: Seq<Seq<char>> = if supports_resume {
        seq!["--resume"@, id]
    } else {
        Seq::empty()
    };
    (args + resume).push(prompt)
}

/// The paths of attachments, one per line.
pub open spec fn path_lines(v: Seq<Attachment>) -> Seq<char> {
    text::join(Seq::new(v.len(), |i: int| v[i].path@), "\n"@)
}

/// The variables that tell a command about attachments: none without one.
pub open spec fn attachment_vars(v: Seq<Attachment>) -> Seq<(Seq<char>, Seq<char>)> {
    if v.len() == 0 {
        Seq::empty()
    } else {
        seq![
            ("AAB_ATTACHMENTS"@, path_lines(v)),
            ("AAB_ATTACHMENT_COUNT"@, text::decimal(v.len())),
        ]
    }
}

/// The events of a command that ran.
pub open spec fn output_events(output: Seq<char>, id: Seq<char>) -> Seq<types::EventView> {
    seq![
        types::EventView::AssistantText { text: output, partial: false },
        types::EventView::Done { session_id: id },
    ]
}

impl CliSession {
    /// The id of the session.
    pub fn id(&self) -> (r: String)
        ensures
            r == self.session_id,
    {
        self.session_id.clone()
    }

    /// The arguments of a prompt.
    pub fn command_args(&self, cfg: &CliAgentConfig, prompt: &str) -> (r: Vec<String>)
        ensures
            text::texts(r@) == prompt_line(
                text::texts(cfg.args@),
                cfg.supports_resume,
                self.session_id@,
                prompt@,
            ),
    {
        let mut out: Vec<String> = text::copy_strings(&cfg.args);
        if cfg.supports_resume {
            out.push("--resume".to_string());
            out.push(self.session_id.clone());
        }
        out.push(prompt.to_string());
        assert(text::texts(out@) =~= prompt_line(
            text::texts(cfg.args@),
            cfg.supports_resume,
            self.session_id@,
            prompt@,
        ));
        out
    }

    /// The events of a command that ran: its output, and the end of the turn.
    pub fn finished(&self, output: String) -> (r: Vec<Event>)
        ensures
            stream_event::event_views(r@) == output_events(output@, self.session_id@),
    {
        let ghost shown = output@;
        let mut out: Vec<Event> = Vec::new();
        out.push(Event::AssistantText { text: output, partial: false });
        out.push(Event::Done { session_id: self.session_id.clone() });
        assert(stream_event::event_views(out@) =~= output_events(shown, self.session_id@));
        out
    }
}

/// The variables that tell a command about attachments.
pub fn attachment_env(v: &Vec<Attachment>) -> (r: Vec<(String, String)>)
    ensures
        text::pair_texts(r@) == attachment_vars(v@),
{
    let mut out: Vec<(String, String)> = Vec::new();
    if v.len() == 0 {
        assert(text::pair_texts(out@) =~= attachment_vars(v@));
        return out;
    }
    let mut paths: Vec<String> = Vec::new();
    let mut i: usize = 0;
    while i < v.len()
        invariant
            i <= v@.len(),
            paths@.len() == i,
            forall|j: int| 0 <= j < i ==> (#[trigger] paths@[j])@ == v@[j].path@,
        decreases v@.len() - i,
    {
        paths.push(v[i].path.clone());
        i = i + 1;
    }
    assert(text::texts(paths@) =~= Seq::new(v@.len(), |i: int| v@[i].path@));
    out.push(("AAB_ATTACHMENTS".to_string(), text::joined(paths.as_slice(), "\n")));
    out.push(("AAB_ATTACHMENT_COUNT".to_string(), text::decimal_text(v.len() as u64)));
    assert(text::pair_texts(out@) =~= attachment_vars(v@));
    out
}

/// The prompt is the last argument, whatever else is passed.
pub proof fn prompt_comes_last(
    args: Seq<Seq<char>>,
    supports_resume: bool,
    id: Seq<char>,
    prompt: Seq<char>,
)
    ensures
        prompt_line(args, supports_resume, id, prompt).last() == prompt,
{
}

/// The process gets the configured arguments, then the session where it can be
/// resumed, then the prompt.
pub proof fn arguments_come_in_order(args: Seq<Seq<char>>, id: Seq<char>, prompt: Seq<char>)
    ensures
        prompt_line(args, true, id, prompt) == args + seq!["--resume"@, id, prompt],
        prompt_line(args, false, id, prompt) == args + seq![prompt],
{
    assert(prompt_line(args, true, id, prompt) =~= args + seq!["--resume"@, id, prompt]);
    assert(prompt_line(args, false, id, prompt) =~= args + seq![prompt]);
}

/// What the process wrote is one complete text, and the turn is over.
pub proof fn output_is_one_complete_text(output: Seq<char>, id: Seq<char>)
    ensures
        output_events(output, id) == seq![
            types::EventView::AssistantText { text: output, partial: false },
            types::EventView::Done { session_id: id },
        ],
{
}

/// The process is told the paths of the attachments, a line for each, and how many
/// there are; without attachments it is told nothing.
pub proof fn attachments_are_told_by_path(v: Seq<Attachment>, a: Attachment)
    ensures
        attachment_vars(Seq::empty()).len() == 0,
        attachment_vars(v.push(a)) == seq![
            (
                "AAB_ATTACHMENTS"@,
                if v.len() == 0 {
                    a.path@
                } else {
                    path_lines(v) + "\n"@ + a.path@
                },
            ),
            ("AAB_ATTACHMENT_COUNT"@, text::decimal(v.len() + 1)),
        ],
{
    let w = v.push(a);
    let p = Seq::new(w.len(), |i: int| w[i].path@);
    let q = Seq::new(v.len(), |i: int| v[i].path@);
    assert(p =~= q.push(a.path@));
    assert(p.drop_last() =~= q);
    assert(p.last() == a.path@);
}

} // verus!
