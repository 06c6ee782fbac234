//! The bridge as a service of the user's systemd: the unit file, and the calls
//! of `systemctl` that manage it.

use vstd::prelude::*;
use vstd::string::*;

use crate::claude;
use crate::text;

verus! {

#[derive(Clone, Copy, Debug, PartialEq, Eq, Structural)]
pub enum ServiceStatus {
    Running,
    Stopped,
    NotInstalled,
}

impl ServiceStatus {
    /// The name of the status.
    pub fn name(&self) -> (r: &'static str)
        ensures
            r@ == match *self {
                ServiceStatus::Running => "Running"@,
                ServiceStatus::Stopped => "Stopped"@,
                ServiceStatus::NotInstalled => "NotInstalled"@,
            },
    {
        match self {
            ServiceStatus::Running => "Running",
            ServiceStatus::Stopped => "Stopped",
            ServiceStatus::NotInstalled => "NotInstalled",
        }
    }
}

/// One step of managing a service.
#[derive(Debug, PartialEq, Eq)]
pub enum Step {
    /// Write a file, and the directories above it.
    Write { path: String, content: String },
    /// Remove a file, if it is there.
    Remove { path: String },
    /// Run `systemctl --user` with these arguments.
    Run { args: Vec<String> },
    /// Run `systemctl --user` with these arguments, whether it succeeds or not.
    Try { args: Vec<String> },
}

pub enum StepView {
    Write { path: Seq<char>, content: Seq<char> },
    Remove { path: Seq<char> },
    Run { args: Seq<Seq<char>> },
    Try { args: Seq<Seq<char>> },
}

impl View for Step {
    type V = StepView;

    open spec fn view(&self) -> StepView {
        match self {
            Step::Write { path, content } => StepView::Write { path: path@, content: content@ },
            Step::Remove { path } => StepView::Remove { path: path@ },
            Step::Run { args } => StepView::Run { args: text::texts(args@) },
            Step::Try { args } => StepView::Try { args: text::texts(args@) },
        }
    }
}

pub open spec fn step_views(v: Seq<Step>) -> Seq<StepView> {
    Seq::new(v.len(), |i: int| v[i]@)
}

// ── Quoting ─────────────────────────────────────────────────────────────

/// A character that a shell takes as it is.
pub open spec fn is_plain(c: char) -> bool {
    text::is_ascii_alnum(c) || c == '-' || c == '_' || c == '.' || c == '/' || c == '=' || c == ':'
}

pub open spec fn all_plain(s: Seq<char>) -> bool {
    forall|i: int| 0 <= i < s.len() ==> is_plain(#[trigger] s[i])
}

/// A text as a word of a command line.
pub open spec fn escaped(s: Seq<char>) -> Seq<char> {
    if all_plain(s) {
        s
    } else {
        "'"@ + text::replace_chars(s, seq!['\''], "'\\''"@) + "'"@
    }
}

fn plain(c: char) -> (r: bool)
    ensures
        r == is_plain(c),
{
    text::ascii_alnum(c) || c == '-' || c == '_' || c == '.' || c == '/' || c == '=' || c == ':'
}

/// A text as a word of a command line.
pub fn shell_escape(s: &str) -> (r: String)
    ensures
        r@ == escaped(s@),
{
    let v: Vec<char> = text::chars_of(s);
    let mut i: usize = 0;
    while i < v.len()
        invariant
            i <= v@.len(),
            v@ == s@,
            forall|j: int| 0 <= j < i ==> is_plain(#[trigger] v@[j]),
        decreases v@.len() - i,
    {
        if !plain(v[i]) {
            assert(!is_plain(s@[i as int]));
            let quote: Vec<char> = vec!['\''];
            assert(quote@ =~= seq!['\'']);
            let inner: String = text::chars_replaced(s, quote.as_slice(), "'\\''");
            return text::concat3("'", inner.as_str(), "'");
        }
        i = i + 1;
    }
    s.to_string()
}

/// What a shell reads: between single quotes everything but a quote stands for
/// itself; outside, plain characters do, and a backslash makes the next one do.
/// None where the text is no single word.
pub open spec fn word_read(s: Seq<char>, quoted: bool) -> Option<Seq<char>>
    decreases s.len(),
{
    if s.len() == 0 {
        if quoted {
            None
        } else {
            Some(s)
        }
    } else if s[0] == '\'' {
        word_read(s.drop_first(), !quoted)
    } else if quoted || is_plain(s[0]) {
        prepended(seq![s[0]], word_read(s.drop_first(), quoted))
    } else if s[0] == '\\' && s.len() > 1 {
        prepended(seq![s[1]], word_read(s.drop_first().drop_first(), quoted))
    } else {
        None
    }
}

pub open spec fn prepended(head: Seq<char>, rest: Option<Seq<char>>) -> Option<Seq<char>> {
    match rest {
        Some(r) => Some(head + r),
        None => None,
    }
}

proof fn lemma_plain_word(s: Seq<char>)
    requires
        all_plain(s),
    ensures
        word_read(s, false) == Some(s),
    decreases s.len(),
{
    if s.len() > 0 {
        let t = s.drop_first();
        assert forall|i: int| 0 <= i < t.len() implies is_plain(#[trigger] t[i]) by {
            assert(t[i] == s[i + 1]);
        }
        assert(is_plain(s[0]));
        lemma_plain_word(t);
        assert(seq![s[0]] + t =~= s);
    }
}

proof fn lemma_quoted(s: Seq<char>, rest: Seq<char>)
    ensures
        word_read(text::replace_chars(s, seq!['\''], "'\\''"@) + rest, true) == prepended(
            s,
            word_read(rest, true),
        ),
    decreases s.len(),
{
    let set = seq!['\''];
    let by = "'\\''"@;
    let body = text::replace_chars(s, set, by);
    if s.len() == 0 {
        assert(body + rest =~= rest);
        match word_read(rest, true) {
            Some(r) => {
                assert(s + r =~= r);
            },
            None => {},
        }
    } else {
        let front = s.drop_last();
        let c = s.last();
        let cover: Seq<char> = if set.contains(c) {
            by
        } else {
            seq![c]
        };
        let next = cover + rest;
        assert(body + rest =~= text::replace_chars(front, set, by) + next);
        lemma_quoted(front, next);
        if set.contains(c) {
            reveal_strlit("'\\''");
            assert(c == '\'');
            let a = next.drop_first();
            assert(a[0] == '\\' && a[1] == '\'');
            let b = a.drop_first().drop_first();
            assert(b[0] == '\'');
            assert(b.drop_first() =~= rest);
            assert(word_read(next, true) == word_read(a, false));
            assert(word_read(a, false) == prepended(seq!['\''], word_read(b, false)));
            assert(word_read(b, false) == word_read(rest, true));
        } else {
            assert(set[0] == '\'');
            assert(c != '\'');
            assert(next.drop_first() =~= rest);
        }
        match word_read(rest, true) {
            Some(r) => {
                assert(front + (seq![c] + r) =~= s + r);
            },
            None => {},
        }
    }
}

/// What is not empty is read back by a shell as one word, unchanged.
pub proof fn escaped_text_is_one_word(s: Seq<char>)
    requires
        s.len() > 0,
    ensures
        escaped(s).len() > 0,
        word_read(escaped(s), false) == Some(s),
{
    if all_plain(s) {
        lemma_plain_word(s);
    } else {
        reveal_strlit("'");
        let body = text::replace_chars(s, seq!['\''], "'\\''"@);
        let e = escaped(s);
        assert(e[0] == '\'');
        assert(e.drop_first() =~= body + "'"@);
        lemma_quoted(s, "'"@);
        let end = "'"@.drop_first();
        assert(end.len() == 0);
        assert(word_read(end, false) == Some(end));
        assert(word_read("'"@, true) == word_read(end, false));
        assert(s + end =~= s);
    }
}

// ── The unit ────────────────────────────────────────────────────────────

/// The command line of the service.
pub open spec fn exec_start(exe: Seq<char>, args: Seq<Seq<char>>) -> Seq<char> {
    escaped(exe) + " "@ + text::join(Seq::new(args.len(), |i: int| escaped(args[i])), " "@)
}

/// The unit file: the service starts after the network, and again after a
/// failure.
pub open spec fn unit_text(name: Seq<char>, exe: Seq<char>, args: Seq<Seq<char>>) -> Seq<char> {
    "[Unit]\nDescription=ai-agent-bridge ("@ + name
        + ")\nAfter=network.target\n\n[Service]\nType=simple\nExecStart="@ + exec_start(exe, args)
        + "\nRestart=on-failure\nRestartSec=5s\n\n[Install]\nWantedBy=default.target\n"@
}

/// What manages a service: each method gives the steps to take.
pub trait ServiceManager {
    fn install(&self, exe: &str, args: &[String]) -> Vec<Step>;

    fn uninstall(&self) -> Vec<Step>;

    fn start(&self) -> Vec<Step>;

    fn stop(&self) -> Vec<Step>;

    fn status(&self, installed: bool, is_active: &str) -> ServiceStatus;
}

/// The service manager of the user.
pub struct SystemdUser {
    pub name: String,
    pub unit_path: String,
}

/// The directory of the user's configuration: the one that the platform names,
/// or `.config` in the home directory.
pub open spec fn config_home(config_dir: Option<Seq<char>>, home: Option<Seq<char>>) -> Seq<char> {
    match config_dir {
        Some(d) => d,
        None => claude::path_in(
            match home {
                Some(h) => h,
                None => Seq::empty(),
            },
            ".config"@,
        ),
    }
}

/// Where the unit file of a service is.
pub open spec fn unit_file(dir: Seq<char>, name: Seq<char>) -> Seq<char> {
    claude::path_in(
        claude::path_in(claude::path_in(dir, "systemd"@), "user"@),
        name + ".service"@,
    )
}

/// The arguments of one call.
pub open spec fn call(verb: Seq<char>, unit: Seq<char>) -> Seq<Seq<char>> {
    seq!["--user"@, verb, unit]
}

pub open spec fn reload() -> Seq<Seq<char>> {
    seq!["--user"@, "daemon-reload"@]
}

fn call_args(verb: &str, unit: &str) -> (r: Vec<String>)
    ensures
        text::texts(r@) == call(verb@, unit@),
{
    let mut v: Vec<String> = Vec::new();
    v.push("--user".to_string());
    v.push(verb.to_string());
    v.push(unit.to_string());
    assert(text::texts(v@) =~= call(verb@, unit@));
    v
}

fn reload_args() -> (r: Vec<String>)
    ensures
        text::texts(r@) == reload(),
{
    let mut v: Vec<String> = Vec::new();
    v.push("--user".to_string());
    v.push("daemon-reload".to_string());
    assert(text::texts(v@) =~= reload());
    v
}

fn command_line(exe: &str, args: &[String]) -> (r: String)
    ensures
        r@ == exec_start(exe@, text::texts(args@)),
{
    let mut words: Vec<String> = Vec::new();
    let mut i: usize = 0;
    while i < args.len()
        invariant
            i <= args@.len(),
            words@.len() == i,
            forall|j: int| 0 <= j < i ==> (#[trigger] words@[j])@ == escaped(args@[j]@),
        decreases args@.len() - i,
    {
        words.push(shell_escape(args[i].as_str()));
        i = i + 1;
    }
    let ghost all = text::texts(args@);
    assert(text::texts(words@) =~= Seq::new(all.len(), |i: int| escaped(all[i])));
    let tail: String = text::joined(words.as_slice(), " ");
    text::concat3(shell_escape(exe).as_str(), " ", tail.as_str())
}

impl SystemdUser {
    /// The manager of a service. `config_dir` is the user's configuration
    /// directory, `home` their home directory.
    pub fn new(name: &str, config_dir: &Option<String>, home: &Option<String>) -> (r: SystemdUser)
        ensures
            r.name@ == name@,
            r.unit_path@ == unit_file(
                config_home(text::opt_text(*config_dir), text::opt_text(*home)),
                name@,
            ),
    {
        let dir: String = match config_dir {
            Some(d) => d.clone(),
            None => match home {
                Some(h) => claude::join_path(h.as_str(), ".config"),
                None => {
                    proof {
                        reveal_strlit("");
                        assert(""@ =~= Seq::<char>::empty());
                    }
                    claude::join_path("", ".config")
                },
            },
        };
        let systemd: String = claude::join_path(dir.as_str(), "systemd");
        let user: String = claude::join_path(systemd.as_str(), "user");
        let file: String = text::concat2(name, ".service");
        SystemdUser {
            name: name.to_string(),
            unit_path: claude::join_path(user.as_str(), file.as_str()),
        }
    }

    /// The name of the unit.
    pub open spec fn unit(&self) -> Seq<char> {
        self.name@ + ".service"@
    }

    fn unit_name(&self) -> (r: String)
        ensures
            r@ == self.unit(),
    {
        text::concat2(self.name.as_str(), ".service")
    }
}

impl ServiceManager for SystemdUser {
    /// Writes the unit file and enables it.
    fn install(&self, exe: &str, args: &[String]) -> (r: Vec<Step>)
        ensures
            step_views(r@) == seq![
                StepView::Write {
                    path: self.unit_path@,
                    content: unit_text(self.name@, exe@, text::texts(args@)),
                },
                StepView::Run { args: reload() },
                StepView::Run { args: call("enable"@, self.unit()) },
            ],
    {
        let head: String = text::concat3(
            "[Unit]\nDescription=ai-agent-bridge (",
            self.name.as_str(),
            ")\nAfter=network.target\n\n[Service]\nType=simple\nExecStart=",
        );
        let line: String = command_line(exe, args);
        let content: String = text::concat3(
            head.as_str(),
            line.as_str(),
            "\nRestart=on-failure\nRestartSec=5s\n\n[Install]\nWantedBy=default.target\n",
        );
        let mut out: Vec<Step> = Vec::new();
        out.push(Step::Write { path: self.unit_path.clone(), content });
        out.push(Step::Run { args: reload_args() });
        out.push(Step::Run { args: call_args("enable", self.unit_name().as_str()) });
        assert(step_views(out@) =~= seq![
            StepView::Write {
                path: self.unit_path@,
                content: unit_text(self.name@, exe@, text::texts(args@)),
            },
            StepView::Run { args: reload() },
            StepView::Run { args: call("enable"@, self.unit()) },
        ]);
        out
    }

    /// Disables and stops the service, as far as that succeeds, and removes the
    /// unit file.
    fn uninstall(&self) -> (r: Vec<Step>)
        ensures
            step_views(r@) == seq![
                StepView::Try { args: call("disable"@, self.unit()) },
                StepView::Try { args: call("stop"@, self.unit()) },
                StepView::Remove { path: self.unit_path@ },
                StepView::Run { args: reload() },
            ],
    {
        let mut out: Vec<Step> = Vec::new();
        out.push(Step::Try { args: call_args("disable", self.unit_name().as_str()) });
        out.push(Step::Try { args: call_args("stop", self.unit_name().as_str()) });
        out.push(Step::Remove { path: self.unit_path.clone() });
        out.push(Step::Run { args: reload_args() });
        assert(step_views(out@) =~= seq![
            StepView::Try { args: call("disable"@, self.unit()) },
            StepView::Try { args: call("stop"@, self.unit()) },
            StepView::Remove { path: self.unit_path@ },
            StepView::Run { args: reload() },
        ]);
        out
    }

    fn start(&self) -> (r: Vec<Step>)
        ensures
            step_views(r@) == seq![StepView::Run { args: call("start"@, self.unit()) }],
    {
        let mut out: Vec<Step> = Vec::new();
        out.push(Step::Run { args: call_args("start", self.unit_name().as_str()) });
        assert(step_views(out@) =~= seq![StepView::Run { args: call("start"@, self.unit()) }]);
        out
    }

    fn stop(&self) -> (r: Vec<Step>)
        ensures
            step_views(r@) == seq![StepView::Run { args: call("stop"@, self.unit()) }],
    {
        let mut out: Vec<Step> = Vec::new();
        out.push(Step::Run { args: call_args("stop", self.unit_name().as_str()) });
        assert(step_views(out@) =~= seq![StepView::Run { args: call("stop"@, self.unit()) }]);
        out
    }

    /// The status: `installed` is whether the unit file is there, `is_active`
    /// what `systemctl is-active` printed.
    fn status(&self, installed: bool, is_active: &str) -> (r: ServiceStatus)
        ensures
            r == (if !installed {
                ServiceStatus::NotInstalled
            } else if text::trim(is_active@) == "active"@ {
                ServiceStatus::Running
            } else {
                ServiceStatus::Stopped
            }),
    {
        if !installed {
            ServiceStatus::NotInstalled
        } else if text::same(text::trimmed(is_active).as_str(), "active") {
            ServiceStatus::Running
        } else {
            ServiceStatus::Stopped
        }
    }
}

/// The service manager of the platform.
pub fn platform_service(name: &str, config_dir: &Option<String>, home: &Option<String>) -> (r:
    SystemdUser)
    ensures
        r.name@ == name@,
        r.unit_path@ == unit_file(
            config_home(text::opt_text(*config_dir), text::opt_text(*home)),
            name@,
        ),
{
    SystemdUser::new(name, config_dir, home)
}

// ── Laws ────────────────────────────────────────────────────────────────

/// A text of plain characters needs no quotes; any other stands between them.
pub proof fn plain_text_needs_no_quotes(s: Seq<char>, i: int)
    ensures
        all_plain(s) ==> escaped(s) == s,
        0 <= i < s.len() && !s.contains('\'') && (s[i] == ' ' || s[i] == '$' || s[i] == '"')
            ==> escaped(s) == "'"@ + s + "'"@,
{
    if 0 <= i < s.len() && !s.contains('\'') && (s[i] == ' ' || s[i] == '$' || s[i] == '"') {
        assert(!is_plain(s[i]));
        lemma_no_quotes(s);
    }
}

proof fn lemma_no_quotes(s: Seq<char>)
    requires
        !s.contains('\''),
    ensures
        text::replace_chars(s, seq!['\''], "'\\''"@) == s,
    decreases s.len(),
{
    if s.len() > 0 {
        let t = s.drop_last();
        assert forall|i: int| 0 <= i < t.len() implies t[i] != '\'' by {
            assert(t[i] == s[i]);
        }
        lemma_no_quotes(t);
        let set = seq!['\''];
        assert(s[s.len() - 1] == s.last());
        assert(set[0] == '\'');
        assert(!set.contains(s.last()));
        assert(t + seq![s.last()] =~= s);
    }
}

/// The service runs the program with its arguments, each as one word, in order; it is
/// started again when it fails, and starts with the session of the user.
pub proof fn service_runs_the_program(
    name: Seq<char>,
    exe: Seq<char>,
    args: Seq<Seq<char>>,
    a: Seq<char>,
)
    ensures
        exec_start(exe, seq![a]) == escaped(exe) + " "@ + escaped(a),
        args.len() > 0 ==> exec_start(exe, args.push(a)) == exec_start(exe, args) + " "@ + escaped(
            a,
        ),
        unit_text(name, exe, args) == "[Unit]\nDescription=ai-agent-bridge ("@ + name
            + ")\nAfter=network.target\n\n[Service]\nType=simple\nExecStart="@ + exec_start(
            exe,
            args,
        ) + "\nRestart=on-failure\nRestartSec=5s\n\n[Install]\nWantedBy=default.target\n"@,
{
    let one = seq![a];
    let w = Seq::new(one.len(), |i: int| escaped(one[i]));
    assert(w =~= seq![escaped(a)]);
    assert(text::join(w, " "@) == escaped(a));
    if args.len() > 0 {
        let more = args.push(a);
        let p = Seq::new(args.len(), |i: int| escaped(args[i]));
        let q = Seq::new(more.len(), |i: int| escaped(more[i]));
        assert(q =~= p.push(escaped(a)));
        assert(q.drop_last() =~= p);
        assert(exec_start(exe, more) =~= exec_start(exe, args) + " "@ + escaped(a));
    }
}

/// The unit file lies where systemd looks for those of the user, under the name of
/// the service.
pub proof fn unit_lies_where_it_is_looked_for(dir: Seq<char>, home: Seq<char>, name: Seq<char>)
    requires
        dir.len() > 0,
        dir.last() != '/',
        home.len() > 0,
        home.last() != '/',
    ensures
        unit_file(dir, name) == dir + "/"@ + "systemd"@ + "/"@ + "user"@ + "/"@ + (name
            + ".service"@),
        config_home(Some(dir), Some(home)) == dir,
        config_home(None, Some(home)) == home + "/"@ + ".config"@,
{
    reveal_strlit("systemd");
    reveal_strlit("user");
    assert((dir + "/"@ + "systemd"@).last() == 'd');
    assert((dir + "/"@ + "systemd"@ + "/"@ + "user"@).last() == 'r');
}

/// The manager is asked about the user's own services.
pub proof fn calls_are_about_the_users_services(verb: Seq<char>, unit: Seq<char>)
    ensures
        call(verb, unit) == seq!["--user"@, verb, unit],
        reload() == seq!["--user"@, "daemon-reload"@],
{
}

} // verus!
