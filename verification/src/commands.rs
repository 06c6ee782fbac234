//! Slash commands: the parser, the registry and the expansion of templates.
//!
//! Names are normalized: a leading `/` is dropped, `-` and `_` are the same
//! and case does not matter.
//!
//! Templates support
//!   * `{{1}} {{2}} ...`: positional arguments, counted from 1
//!   * `{{2*}}`: argument 2 onward, joined by a space
//!   * `{{args}}`: all arguments, joined by a space
//!
//! A built-in command always wins over one of another source.

use vstd::prelude::*;
use vstd::string::*;

use crate::text;

verus! {

#[derive(Clone, Copy, Debug, PartialEq, Eq, Structural)]
pub enum Source {
    Builtin,
    Config,
    Agent,
}

/// The text with every character in lower case, as Unicode has it.
pub uninterp spec fn lowercase(s: Seq<char>) -> Seq<char>;

/// `str::to_lowercase`. A text of ASCII characters has its letters `A` to `Z`
/// turned into `a` to `z`; of other texts only the name says what comes out.
#[verifier::external_body]
fn to_lower(s: &str) -> (r: String)
    ensures
        r@ == lowercase(s@),
        text::all_ascii(s@) ==> r@ == text::lower_ascii(s@),
{
    s.to_lowercase()
}

/// The text in lower case: of a text of ASCII characters the letters `A` to `Z`
/// change.
pub open spec fn lowered(s: Seq<char>) -> Seq<char> {
    if text::all_ascii(s) {
        text::lower_ascii(s)
    } else {
        lowercase(s)
    }
}

/// The name under which a command is registered.
pub open spec fn normal(name: Seq<char>) -> Seq<char> {
    lowered(text::replace_chars(text::strip_front(name, seq!['/']), seq!['-'], seq!['_']))
}

#[derive(Debug, PartialEq, Eq)]
pub struct CommandSpec {
    pub name: String,
    pub source: Source,
    pub template: String,
    pub description: String,
}

pub struct CommandView {
    pub name: Seq<char>,
    pub source: Source,
    pub template: Seq<char>,
    pub description: Seq<char>,
}

impl View for CommandSpec {
    type V = CommandView;

    open spec fn view(&self) -> CommandView {
        CommandView {
            name: self.name@,
            source: self.source,
            template: self.template@,
            description: self.description@,
        }
    }
}

/// The views of a list of commands.
pub open spec fn command_views(v: Seq<CommandSpec>) -> Seq<CommandView> {
    Seq::new(v.len(), |i: int| v[i]@)
}

impl Clone for CommandSpec {
    fn clone(&self) -> (r: CommandSpec)
        ensures
            r == *self,
    {
        CommandSpec {
            name: self.name.clone(),
            source: self.source,
            template: self.template.clone(),
            description: self.description.clone(),
        }
    }
}

#[derive(Debug, PartialEq, Eq)]
pub enum RegisterError {
    /// A command of that name is registered, from the given source.
    Conflict { name: String, existing: Source },
}

/// The name of a source in an error message.
pub open spec fn source_name(s: Source) -> Seq<char> {
    match s {
        Source::Builtin => "Builtin"@,
        Source::Config => "Config"@,
        Source::Agent => "Agent"@,
    }
}

impl RegisterError {
    /// The error in words.
    pub fn message(&self) -> (r: String)
        ensures
            match self {
                RegisterError::Conflict { name, existing } => r@ == "command `"@ + name@
                    + "` already registered (source="@ + source_name(*existing) + ")"@,
            },
    {
        match self {
            RegisterError::Conflict { name, existing } => {
                let source: &str = match existing {
                    Source::Builtin => "Builtin",
                    Source::Config => "Config",
                    Source::Agent => "Agent",
                };
                let mut out: String = text::concat3(
                    "command `",
                    name.as_str(),
                    "` already registered (source=",
                );
                out.append(source);
                out.append(")");
                out
            },
        }
    }
}

// ── Registry ────────────────────────────────────────────────────────────

/// No two commands have the same normalized name.
pub open spec fn distinct(all: Seq<CommandView>) -> bool {
    forall|i: int, j: int|
        0 <= i < j < all.len() ==> normal(#[trigger] all[i].name) != normal(
            #[trigger] all[j].name,
        )
}

/// Where the command of a normalized name is, if there is one.
pub open spec fn place(all: Seq<CommandView>, key: Seq<char>) -> Option<int>
    decreases all.len(),
{
    if all.len() == 0 {
        None
    } else if normal(all.last().name) == key {
        Some(all.len() - 1)
    } else {
        place(all.drop_last(), key)
    }
}

/// The command of a normalized name, if there is one.
pub open spec fn named(all: Seq<CommandView>, key: Seq<char>) -> Option<CommandView> {
    match place(all, key) {
        Some(i) => Some(all[i]),
        None => None,
    }
}

/// A command may be added: its name is free, or it is a built-in one and its
/// name belongs to one of another source.
pub open spec fn may_add(all: Seq<CommandView>, c: CommandView) -> bool {
    match named(all, normal(c.name)) {
        None => true,
        Some(existing) => existing.source != Source::Builtin && c.source == Source::Builtin,
    }
}

/// The commands after one was offered: it stands at the end, or in the place of
/// the one that it replaces, or it was refused.
pub open spec fn added(all: Seq<CommandView>, c: CommandView) -> Seq<CommandView> {
    if !may_add(all, c) {
        all
    } else {
        match place(all, normal(c.name)) {
            None => all.push(c),
            Some(i) => all.update(i, c),
        }
    }
}

/// The commands after those of `extra` were offered one after the other.
pub open spec fn offered(all: Seq<CommandView>, extra: Seq<CommandView>) -> Seq<CommandView>
    decreases extra.len(),
{
    if extra.len() == 0 {
        all
    } else {
        added(offered(all, extra.drop_last()), extra.last())
    }
}

pub proof fn lemma_place(all: Seq<CommandView>, key: Seq<char>)
    ensures
        match place(all, key) {
            Some(i) => 0 <= i < all.len() && normal(all[i].name) == key,
            None => forall|i: int| 0 <= i < all.len() ==> normal(#[trigger] all[i].name) != key,
        },
    decreases all.len(),
{
    if all.len() > 0 {
        let t = all.drop_last();
        lemma_place(t, key);
        if place(all, key) is None {
            assert forall|i: int| 0 <= i < all.len() implies normal(#[trigger] all[i].name)
                != key by {
                if i < t.len() {
                    assert(t[i] == all[i]);
                }
            }
        }
    }
}

pub proof fn lemma_placed(all: Seq<CommandView>, i: int)
    requires
        distinct(all),
        0 <= i < all.len(),
    ensures
        place(all, normal(all[i].name)) == Some(i),
{
    let key = normal(all[i].name);
    lemma_place(all, key);
    assert(normal(all[i].name) == key);
    let k = place(all, key)->Some_0;
    if k < i {
        assert(normal(all[k].name) != normal(all[i].name));
    } else if i < k {
        assert(normal(all[i].name) != normal(all[k].name));
    }
}

/// What offering a command does to the names: an accepted one is found under its
/// name, and nothing else changes.
proof fn lemma_added(all: Seq<CommandView>, c: CommandView, key: Seq<char>)
    requires
        distinct(all),
    ensures
        distinct(added(all, c)),
        named(added(all, c), key) == (if may_add(all, c) && key == normal(c.name) {
            Some(c)
        } else {
            named(all, key)
        }),
{
    let own = normal(c.name);
    let after = added(all, c);
    lemma_place(all, own);
    lemma_place(all, key);
    lemma_place(after, key);
    if may_add(all, c) {
        let at = match place(all, own) {
            None => all.len() as int,
            Some(i) => i,
        };
        assert forall|i: int, j: int| 0 <= i < j < after.len() implies normal(
            #[trigger] after[i].name,
        ) != normal(#[trigger] after[j].name) by {
            if i != at && j != at {
                assert(normal(all[i].name) != normal(all[j].name));
            } else if i == at {
                assert(after[j] == all[j]);
                if at < all.len() {
                    assert(normal(all[i].name) != normal(all[j].name));
                }
            } else {
                assert(after[i] == all[i]);
                if at < all.len() {
                    assert(normal(all[i].name) != normal(all[j].name));
                } else {
                    assert(normal(all[i].name) != own);
                }
            }
        }
        assert(after[at] == c);
        lemma_placed(after, at);
        if key != own {
            match place(all, key) {
                Some(i) => {
                    assert(i != at);
                    assert(after[i] == all[i]);
                    lemma_placed(after, i);
                },
                None => {
                    if place(after, key) is Some {
                        let k = place(after, key)->Some_0;
                        assert(k != at);
                        assert(after[k] == all[k]);
                        assert(normal(all[k].name) == key);
                    }
                },
            }
        }
    }
}

proof fn lemma_offered(all: Seq<CommandView>, extra: Seq<CommandView>)
    requires
        distinct(all),
    ensures
        distinct(offered(all, extra)),
    decreases extra.len(),
{
    if extra.len() > 0 {
        lemma_offered(all, extra.drop_last());
        lemma_added(offered(all, extra.drop_last()), extra.last(), Seq::empty());
    }
}

/// A name that nothing was offered under means what it meant before; where that
/// is nothing, it still is.
pub proof fn only_offered_commands_are_found(
    all: Seq<CommandView>,
    extra: Seq<CommandView>,
    key: Seq<char>,
)
    requires
        distinct(all),
        forall|i: int| 0 <= i < extra.len() ==> normal(#[trigger] extra[i].name) != key,
    ensures
        named(offered(all, extra), key) == named(all, key),
    decreases extra.len(),
{
    if extra.len() > 0 {
        let t = extra.drop_last();
        assert forall|i: int| 0 <= i < t.len() implies normal(#[trigger] t[i].name) != key by {
            assert(t[i] == extra[i]);
        }
        only_offered_commands_are_found(all, t, key);
        lemma_offered(all, t);
        lemma_added(offered(all, t), extra.last(), key);
        assert(extra[extra.len() - 1] == extra.last());
    }
}

/// A command that is offered under a name that nobody else has is found under it
/// as it was given.
pub proof fn free_command_is_found(all: Seq<CommandView>, extra: Seq<CommandView>, i: int)
    requires
        distinct(all),
        0 <= i < extra.len(),
        named(all, normal(extra[i].name)) is None,
        forall|j: int|
            0 <= j < extra.len() && j != i ==> normal(#[trigger] extra[j].name) != normal(
                extra[i].name,
            ),
    ensures
        named(offered(all, extra), normal(extra[i].name)) == Some(extra[i]),
    decreases extra.len(),
{
    let t = extra.drop_last();
    let key = normal(extra[i].name);
    lemma_offered(all, t);
    lemma_added(offered(all, t), extra.last(), key);
    if i < t.len() {
        assert(t[i] == extra[i]);
        assert forall|j: int| 0 <= j < t.len() && j != i implies normal(#[trigger] t[j].name) != normal(
            t[i].name,
        ) by {
            assert(t[j] == extra[j]);
        }
        free_command_is_found(all, t, i);
        assert(normal(extra[extra.len() - 1].name) != key);
    } else {
        assert forall|j: int| 0 <= j < t.len() implies normal(#[trigger] t[j].name) != key by {
            assert(t[j] == extra[j]);
        }
        only_offered_commands_are_found(all, t, key);
    }
}

/// Whatever is offered, a name that a built-in command has still means it.
pub proof fn builtin_names_stay(all: Seq<CommandView>, extra: Seq<CommandView>, key: Seq<char>)
    requires
        distinct(all),
        named(all, key) matches Some(c) && c.source == Source::Builtin,
    ensures
        named(offered(all, extra), key) == named(all, key),
    decreases extra.len(),
{
    if extra.len() > 0 {
        builtin_names_stay(all, extra.drop_last(), key);
        lemma_offered(all, extra.drop_last());
        lemma_added(offered(all, extra.drop_last()), extra.last(), key);
    }
}

/// The commands by normalized name.
pub struct CommandRegistry {
    specs: Vec<CommandSpec>,
}

impl CommandRegistry {
    /// The registered commands, in the order of registration.
    pub closed spec fn all(self) -> Seq<CommandSpec> {
        self.specs@
    }

    /// No two commands have the same normalized name.
    pub open spec fn wf(self) -> bool {
        forall|i: int, j: int|
            0 <= i < j < self.all().len() ==> normal(#[trigger] self.all()[i].name@) != normal(
                #[trigger] self.all()[j].name@,
            )
    }

    /// The command of a normalized name.
    pub open spec fn lookup(self, key: Seq<char>) -> Option<CommandSpec> {
        if exists|i: int| 0 <= i < self.all().len() && normal(#[trigger] self.all()[i].name@) == key {
            Some(
                self.all()[choose|i: int|
                    0 <= i < self.all().len() && normal(#[trigger] self.all()[i].name@) == key],
            )
        } else {
            None
        }
    }

    proof fn lemma_lookup(self, i: int)
        requires
            self.wf(),
            0 <= i < self.all().len(),
        ensures
            self.lookup(normal(self.all()[i].name@)) == Some(self.all()[i]),
    {
        let key = normal(self.all()[i].name@);
        let k = choose|k: int|
            0 <= k < self.all().len() && normal(#[trigger] self.all()[k].name@) == key;
        assert(k == i) by {
            if k < i {
                assert(normal(self.all()[k].name@) != normal(self.all()[i].name@));
            } else if i < k {
                assert(normal(self.all()[i].name@) != normal(self.all()[k].name@));
            }
        }
    }

    /// The command that a name leads to is the one that has it.
    pub proof fn lemma_named(self, key: Seq<char>)
        requires
            self.wf(),
        ensures
            distinct(command_views(self.all())),
            match self.lookup(key) {
                Some(c) => named(command_views(self.all()), key) == Some(c@),
                None => named(command_views(self.all()), key) is None,
            },
    {
        let v = command_views(self.all());
        assert(distinct(v)) by {
            assert forall|i: int, j: int| 0 <= i < j < v.len() implies normal(
                #[trigger] v[i].name,
            ) != normal(#[trigger] v[j].name) by {
                assert(normal(self.all()[i].name@) != normal(self.all()[j].name@));
            }
        }
        lemma_place(v, key);
        match place(v, key) {
            Some(i) => {
                assert(normal(self.all()[i].name@) == key);
                self.lemma_lookup(i);
            },
            None => {
                assert forall|i: int| 0 <= i < self.all().len() implies normal(
                    #[trigger] self.all()[i].name@,
                ) != key by {
                    assert(normal(v[i].name) != key);
                }
            },
        }
    }

    pub fn new() -> (r: CommandRegistry)
        ensures
            r.wf(),
            r.all().len() == 0,
    {
        CommandRegistry { specs: Vec::new() }
    }

    /// The name under which a command is registered.
    pub fn normalize(name: &str) -> (r: String)
        ensures
            r@ == normal(name@),
    {
        let slash: Vec<char> = text::chars_of("/");
        let dash: Vec<char> = text::chars_of("-");
        proof {
            reveal_strlit("/");
            reveal_strlit("-");
            reveal_strlit("_");
            assert(slash@ =~= seq!['/']);
            assert(dash@ =~= seq!['-']);
            assert("_"@ =~= seq!['_']);
        }
        let stripped: String = text::stripped_front(name, &slash);
        let unified: String = text::chars_replaced(stripped.as_str(), &dash, "_");
        to_lower(unified.as_str())
    }

    fn position(&self, key: &str) -> (r: Option<usize>)
        ensures
            match r {
                Some(i) => i < self.all().len() && normal(self.all()[i as int].name@) == key@,
                None => forall|i: int|
                    0 <= i < self.all().len() ==> normal(#[trigger] self.all()[i].name@) != key@,
            },
    {
        let mut i: usize = 0;
        while i < self.specs.len()
            invariant
                i <= self.specs@.len(),
                forall|j: int| 0 <= j < i ==> normal(#[trigger] self.specs@[j].name@) != key@,
            decreases self.specs@.len() - i,
        {
            let name: String = CommandRegistry::normalize(self.specs[i].name.as_str());
            if text::same(name.as_str(), key) {
                return Some(i);
            }
            i = i + 1;
        }
        None
    }

    /// Add a command. A built-in one takes the place of one of another source;
    /// otherwise a name that is taken is refused and nothing changes.
    pub fn register(&mut self, spec: CommandSpec) -> (r: Result<(), RegisterError>)
        requires
            old(self).wf(),
        ensures
            final(self).wf(),
            registers(*old(self), *final(self), spec, r is Ok),
            command_views(final(self).all()) == added(command_views(old(self).all()), spec@),
            r matches Err(RegisterError::Conflict { name, existing }) ==> name@ == normal(
                spec.name@,
            ) && (old(self).lookup(normal(spec.name@)) matches Some(e) && e.source == existing),
    {
        let key: String = CommandRegistry::normalize(spec.name.as_str());
        let ghost before = *self;
        let ghost views = command_views(self.all());
        proof {
            before.lemma_named(key@);
            lemma_place(views, key@);
        }
        match self.position(key.as_str()) {
            Some(i) => {
                let existing: Source = self.specs[i].source;
                proof {
                    before.lemma_lookup(i as int);
                    lemma_placed(views, i as int);
                }
                if existing != Source::Builtin && spec.source == Source::Builtin {
                    self.specs.set(i, spec);
                    proof {
                        assert(before.all().update(i as int, spec) == self.all());
                        assert(command_views(self.all()) =~= views.update(i as int, spec@));
                        let after = *self;
                        assert(after.wf()) by {
                            assert forall|a: int, b: int|
                                0 <= a < b < after.all().len() implies normal(
                                #[trigger] after.all()[a].name@,
                            ) != normal(#[trigger] after.all()[b].name@) by {
                                assert(normal(before.all()[a].name@) != normal(
                                    before.all()[b].name@,
                                ));
                            }
                        }
                        Self::lemma_changed(before, after, i as int, spec);
                    }
                    Ok(())
                } else {
                    Err(RegisterError::Conflict { name: key, existing })
                }
            },
            None => {
                self.specs.push(spec);
                proof {
                    let after = *self;
                    assert(after.all() == before.all().push(spec));
                    assert(place(views, key@) is None) by {
                        if place(views, key@) is Some {
                            let k = place(views, key@)->Some_0;
                            assert(normal(before.all()[k].name@) == key@);
                        }
                    }
                    assert(command_views(after.all()) =~= views.push(spec@));
                    assert(after.wf()) by {
                        assert forall|a: int, b: int|
                            0 <= a < b < after.all().len() implies normal(
                            #[trigger] after.all()[a].name@,
                        ) != normal(#[trigger] after.all()[b].name@) by {
                            assert(after.all()[a] == before.all()[a]);
                            if b < before.all().len() {
                                assert(normal(before.all()[a].name@) != normal(
                                    before.all()[b].name@,
                                ));
                            }
                        }
                    }
                    Self::lemma_changed(before, after, before.all().len() as int, spec);
                }
                Ok(())
            },
        }
    }

    /// A registry that differs from another only at position `at`.
    proof fn lemma_changed(before: Self, after: Self, at: int, spec: CommandSpec)
        requires
            before.wf(),
            after.wf(),
            0 <= at < after.all().len(),
            after.all()[at] == spec,
            at < before.all().len() ==> after.all().len() == before.all().len() && normal(
                before.all()[at].name@,
            ) == normal(spec.name@),
            at >= before.all().len() ==> after.all().len() == before.all().len() + 1,
            forall|i: int|
                0 <= i < before.all().len() && i != at ==> #[trigger] after.all()[i]
                    == before.all()[i],
        ensures
            forall|key: Seq<char>| #[trigger]
                after.lookup(key) == (if key == normal(spec.name@) {
                    Some(spec)
                } else {
                    before.lookup(key)
                }),
    {
        assert forall|key: Seq<char>| #[trigger]
            after.lookup(key) == (if key == normal(spec.name@) {
                Some(spec)
            } else {
                before.lookup(key)
            }) by {
            after.lemma_lookup(at);
            if key != normal(spec.name@) {
                if after.lookup(key) is Some {
                    let k = choose|k: int|
                        0 <= k < after.all().len() && normal(#[trigger] after.all()[k].name@)
                            == key;
                    assert(k != at);
                    assert(before.all()[k] == after.all()[k]);
                    before.lemma_lookup(k);
                }
                if before.lookup(key) is Some {
                    let k = choose|k: int|
                        0 <= k < before.all().len() && normal(#[trigger] before.all()[k].name@)
                            == key;
                    assert(k != at);
                    assert(before.all()[k] == after.all()[k]);
                    after.lemma_lookup(k);
                }
            }
        }
    }

    /// The command of that name.
    pub fn get(&self, name: &str) -> (r: Option<&CommandSpec>)
        requires
            self.wf(),
        ensures
            match r {
                Some(spec) => self.lookup(normal(name@)) == Some(*spec),
                None => self.lookup(normal(name@)) is None,
            },
    {
        let key: String = CommandRegistry::normalize(name);
        match self.position(key.as_str()) {
            Some(i) => {
                proof {
                    self.lemma_lookup(i as int);
                }
                Some(&self.specs[i])
            },
            None => None,
        }
    }

    /// All commands, in the order of registration.
    pub fn list(&self) -> (r: &Vec<CommandSpec>)
        ensures
            r@ == self.all(),
    {
        &self.specs
    }

    /// The template of the command, expanded; none where there is no such
    /// command.
    pub fn expand(&self, name: &str, args: &[&str]) -> (r: Option<String>)
        requires
            self.wf(),
        ensures
            match self.lookup(normal(name@)) {
                Some(spec) => text::opt_text(r) == Some(
                    expansion(spec.template@, text::str_texts(args@)),
                ),
                None => r is None,
            },
    {
        match self.get(name) {
            Some(spec) => Some(expand_template(spec.template.as_str(), args)),
            None => None,
        }
    }
}

/// What registering a command does to a registry. A built-in one takes the
/// place of one of another source; otherwise a name that is taken is refused
/// and nothing changes.
pub open spec fn registers(
    before: CommandRegistry,
    after: CommandRegistry,
    spec: CommandSpec,
    accepted: bool,
) -> bool {
    &&& match before.lookup(normal(spec.name@)) {
        None => accepted && after.all() == before.all().push(spec),
        Some(existing) => if existing.source != Source::Builtin && spec.source
            == Source::Builtin {
            accepted && exists|i: int|
                0 <= i < before.all().len() && before.all()[i] == existing
                    && #[trigger] before.all().update(i, spec) == after.all()
        } else {
            !accepted && after.all() == before.all()
        },
    }
    &&& forall|key: Seq<char>| #[trigger]
        after.lookup(key) == (if accepted && key == normal(spec.name@) {
            Some(spec)
        } else {
            before.lookup(key)
        })
}

/// Built-in commands always win: whatever is registered afterwards, a name
/// that a built-in command has still leads to it.
pub proof fn builtin_commands_stay(
    before: CommandRegistry,
    after: CommandRegistry,
    spec: CommandSpec,
    accepted: bool,
    key: Seq<char>,
)
    requires
        registers(before, after, spec, accepted),
        before.lookup(key) matches Some(existing) && existing.source == Source::Builtin,
    ensures
        after.lookup(key) == before.lookup(key),
{
}

/// An accepted command is found under every spelling of its name.
pub proof fn accepted_command_is_found(
    before: CommandRegistry,
    after: CommandRegistry,
    spec: CommandSpec,
    name: Seq<char>,
)
    requires
        registers(before, after, spec, true),
        normal(name) == normal(spec.name@),
    ensures
        after.lookup(normal(name)) == Some(spec),
{
}

// ── Chat lines ──────────────────────────────────────────────────────────

/// The words of a line from a point at which `buf` has been read of the
/// current word. White space ends a word except inside double quotes, where a
/// backslash takes the next character as it is.
pub open spec fn words(s: Seq<char>, buf: Seq<char>, quoted: bool) -> Seq<Seq<char>>
    decreases s.len(),
{
    if s.len() == 0 {
        if buf.len() > 0 {
            seq![buf]
        } else {
            Seq::empty()
        }
    } else {
        let c = s[0];
        let t = s.drop_first();
        if c == '"' {
            words(t, buf, !quoted)
        } else if c == '\\' && quoted {
            if t.len() > 0 {
                words(t.drop_first(), buf.push(t[0]), quoted)
            } else {
                words(t, buf, quoted)
            }
        } else if text::is_white(c) && !quoted {
            if buf.len() > 0 {
                seq![buf] + words(t, Seq::empty(), quoted)
            } else {
                words(t, Seq::empty(), quoted)
            }
        } else {
            words(t, buf.push(c), quoted)
        }
    }
}

/// No word of a line is empty.
pub proof fn words_are_not_empty(s: Seq<char>, buf: Seq<char>, quoted: bool)
    ensures
        forall|i: int|
            0 <= i < words(s, buf, quoted).len() ==> (#[trigger] words(s, buf, quoted)[i]).len()
                > 0,
    decreases s.len(),
{
    if s.len() > 0 {
        let c = s[0];
        let t = s.drop_first();
        if c == '"' {
            words_are_not_empty(t, buf, !quoted);
            assert(words(s, buf, quoted) == words(t, buf, !quoted));
        } else if c == '\\' && quoted {
            if t.len() > 0 {
                words_are_not_empty(t.drop_first(), buf.push(t[0]), quoted);
                assert(words(s, buf, quoted) == words(t.drop_first(), buf.push(t[0]), quoted));
            } else {
                words_are_not_empty(t, buf, quoted);
                assert(words(s, buf, quoted) == words(t, buf, quoted));
            }
        } else if text::is_white(c) && !quoted {
            let tail = words(t, Seq::empty(), quoted);
            words_are_not_empty(t, Seq::empty(), quoted);
            assert forall|i: int| 0 <= i < words(s, buf, quoted).len() implies (#[trigger] words(
                s,
                buf,
                quoted,
            )[i]).len() > 0 by {
                if buf.len() > 0 && i > 0 {
                    assert(words(s, buf, quoted)[i] == tail[i - 1]);
                }
            }
        } else {
            words_are_not_empty(t, buf.push(c), quoted);
            assert(words(s, buf, quoted) == words(t, buf.push(c), quoted));
        }
    }
}

proof fn lemma_quoted(w: Seq<char>, buf: Seq<char>)
    requires
        !w.contains('"'),
        !w.contains('\\'),
        buf.len() + w.len() > 0,
    ensures
        words(w.push('"'), buf, true) == seq![buf + w],
    decreases w.len(),
{
    let s = w.push('"');
    if w.len() == 0 {
        assert(s.drop_first() =~= Seq::<char>::empty());
        assert(words(s.drop_first(), buf, false) =~= seq![buf]);
        assert(buf + w =~= buf);
    } else {
        assert(w.contains(w[0]));
        assert(s.drop_first() =~= w.drop_first().push('"'));
        assert forall|c: char| w.drop_first().contains(c) implies w.contains(c) by {
            let i = choose|i: int| 0 <= i < w.drop_first().len() && w.drop_first()[i] == c;
            assert(w[i + 1] == c);
        }
        lemma_quoted(w.drop_first(), buf.push(w[0]));
        assert(buf.push(w[0]) + w.drop_first() =~= buf + w);
    }
}

/// A text in double quotes is one word, white space and all, as long as it
/// holds no quote and no backslash.
pub proof fn quoted_text_is_one_word(w: Seq<char>)
    requires
        !w.contains('"'),
        !w.contains('\\'),
        w.len() > 0,
    ensures
        words(seq!['"'] + w + seq!['"'], Seq::empty(), false) == seq![w],
{
    let line = seq!['"'] + w + seq!['"'];
    assert(line.drop_first() =~= w.push('"'));
    lemma_quoted(w, Seq::empty());
    assert(Seq::<char>::empty() + w =~= w);
}

fn tokenize(s: &str) -> (r: Vec<String>)
    ensures
        text::texts(r@) == words(s@, Seq::empty(), false),
{
    let v: Vec<char> = text::chars_of(s);
    let n: usize = v.len();
    let mut out: Vec<String> = Vec::new();
    let mut buf: String = String::new();
    let mut quoted: bool = false;
    let mut i: usize = 0;
    let ghost all = words(s@, Seq::empty(), false);
    assert(v@.skip(0) =~= s@);
    assert(buf@ =~= Seq::<char>::empty());
    assert(text::texts(out@) + words(v@.skip(0), buf@, quoted) =~= all);
    while i < n
        invariant
            i <= n == v@.len(),
            text::texts(out@) + words(v@.skip(i as int), buf@, quoted) == all,
        decreases n - i,
    {
        let c: char = v[i];
        let ghost rest = v@.skip(i as int);
        assert(rest[0] == c);
        assert(rest.drop_first() =~= v@.skip(i + 1));
        i = i + 1;
        if c == '"' {
            quoted = !quoted;
        } else if c == '\\' && quoted {
            if i < n {
                assert(v@.skip(i as int)[0] == v@[i as int]);
                assert(v@.skip(i as int).drop_first() =~= v@.skip(i + 1));
                buf.push(v[i]);
                i = i + 1;
            }
        } else if text::white(c) && !quoted {
            if buf.as_str().unicode_len() > 0 {
                let ghost before = out@;
                let ghost word = buf@;
                let ghost tail = words(v@.skip(i as int), Seq::empty(), quoted);
                out.push(buf);
                buf = String::new();
                assert(buf@ =~= Seq::<char>::empty());
                assert(text::texts(out@) + tail =~= text::texts(before) + (seq![word] + tail));
            } else {
                assert(buf@ =~= Seq::<char>::empty());
            }
        } else {
            buf.push(c);
        }
    }
    let ghost before = out@;
    let ghost word = buf@;
    assert(v@.skip(i as int).len() == 0);
    if buf.as_str().unicode_len() > 0 {
        out.push(buf);
        assert(text::texts(out@) =~= text::texts(before) + seq![word]);
    } else {
        assert(text::texts(out@) =~= text::texts(out@) + Seq::empty());
    }
    out
}

/// The command of a chat line and its arguments: a line that starts with `/`
/// and has at least one word behind it.
pub open spec fn command_line(line: Seq<char>) -> Option<(Seq<char>, Seq<Seq<char>>)> {
    let t = text::trim_start(line);
    if t.len() == 0 || t[0] != '/' {
        None
    } else {
        let w = words(t.drop_first(), Seq::empty(), false);
        if w.len() == 0 {
            None
        } else {
            Some((w[0], w.drop_first()))
        }
    }
}

proof fn lemma_plain_word(s: Seq<char>, buf: Seq<char>)
    requires
        forall|k: int| 0 <= k < s.len() ==> !text::is_white(#[trigger] s[k]) && s[k] != '"',
        s.len() + buf.len() > 0,
    ensures
        words(s, buf, false) == seq![buf + s],
    decreases s.len(),
{
    if s.len() == 0 {
        assert(buf + s =~= buf);
    } else {
        let t = s.drop_first();
        assert forall|k: int| 0 <= k < t.len() implies !text::is_white(#[trigger] t[k]) && t[k]
            != '"' by {
            assert(t[k] == s[k + 1]);
        }
        assert(!text::is_white(s[0]) && s[0] != '"');
        lemma_plain_word(t, buf.push(s[0]));
        assert(buf.push(s[0]) + t =~= buf + s);
    }
}

/// A slash and a word are a command without arguments.
pub proof fn slashed_word_is_a_command(w: Seq<char>)
    requires
        w.len() > 0,
        forall|k: int| 0 <= k < w.len() ==> !text::is_white(#[trigger] w[k]) && w[k] != '"',
    ensures
        command_line(text::trim("/"@ + w)) == Some((w, Seq::<Seq<char>>::empty())),
{
    reveal_strlit("/");
    let line = "/"@ + w;
    assert(line.last() == w[w.len() - 1]);
    assert(text::trim(line) == line);
    assert(line.drop_first() =~= w);
    lemma_plain_word(w, Seq::empty());
    assert(Seq::<char>::empty() + w =~= w);
    assert(seq![w].drop_first() =~= Seq::<Seq<char>>::empty());
}

/// The command of a chat line and its arguments, if it is one. An argument in
/// double quotes may hold white space.
pub fn parse_command_line(line: &str) -> (r: Option<(String, Vec<String>)>)
    ensures
        match r {
            Some((name, args)) => command_line(line@) == Some((name@, text::texts(args@))),
            None => command_line(line@) is None,
        },
{
    let t: String = text::trimmed_start(line);
    proof {
        reveal_strlit("/");
    }
    match text::after_prefix(t.as_str(), "/") {
        None => {
            assert(t@.len() > 0 ==> t@.subrange(0, 1) =~= seq![t@[0]]);
            assert(t@.len() > 0 && t@[0] == '/' ==> t@.subrange(0, 1) =~= "/"@);
            None
        },
        Some(rest) => {
            assert(t@.subrange(0, 1)[0] == "/"@[0]);
            assert(rest@ =~= t@.drop_first());
            let mut w: Vec<String> = tokenize(rest.as_str());
            let ghost all = w@;
            if w.len() == 0 {
                return None;
            }
            let name: String = w.remove(0);
            assert(text::texts(w@) =~= text::texts(all).drop_first());
            Some((name, w))
        },
    }
}

// ── Templates ───────────────────────────────────────────────────────────

/// Where `}}` stands first at or after position `i`.
pub open spec fn close_from(t: Seq<char>, i: int) -> Option<int>
    decreases t.len() - i,
{
    if i + 1 >= t.len() {
        None
    } else if t[i] == '}' && t[i + 1] == '}' {
        Some(i)
    } else {
        close_from(t, i + 1)
    }
}

/// What stands for a placeholder; none where it is no placeholder.
pub open spec fn placeholder(tok: Seq<char>, args: Seq<Seq<char>>) -> Option<Seq<char>> {
    let t = text::trim(tok);
    if t == "args"@ {
        Some(text::join(args, " "@))
    } else if t.len() > 0 && t.last() == '*' {
        match text::parse_upto(t.drop_last(), usize::MAX as int) {
            None => None,
            Some(n) => if n == 0 {
                None
            } else if n - 1 >= args.len() {
                Some(Seq::empty())
            } else {
                Some(text::join(args.skip(n - 1), " "@))
            },
        }
    } else {
        match text::parse_upto(t, usize::MAX as int) {
            None => None,
            Some(n) => if n == 0 {
                None
            } else if n - 1 >= args.len() {
                Some(Seq::empty())
            } else {
                Some(args[n - 1])
            },
        }
    }
}

pub proof fn lemma_close_from(t: Seq<char>, i: int)
    ensures
        close_from(t, i) matches Some(e) ==> i <= e && e + 1 < t.len(),
    decreases t.len() - i,
{
    if i + 1 < t.len() && !(t[i] == '}' && t[i + 1] == '}') {
        lemma_close_from(t, i + 1);
    }
}

/// The placeholder at the start of a template: what stands for it and where
/// it ends.
pub open spec fn leading(t: Seq<char>, args: Seq<Seq<char>>) -> Option<(Seq<char>, int)> {
    if t.len() >= 2 && t[0] == '{' && t[1] == '{' {
        match close_from(t, 2) {
            Some(e) => match placeholder(t.subrange(2, e), args) {
                Some(r) => Some((r, e + 2)),
                None => None,
            },
            None => None,
        }
    } else {
        None
    }
}

/// A template with its placeholders filled in. What is no placeholder stays.
pub open spec fn expansion(t: Seq<char>, args: Seq<Seq<char>>) -> Seq<char>
    decreases t.len(),
{
    if t.len() == 0 {
        t
    } else {
        match leading(t, args) {
            Some((r, end)) => {
                proof {
                    lemma_close_from(t, 2);
                }
                r + expansion(t.skip(end), args)
            },
            None => seq![t[0]] + expansion(t.drop_first(), args),
        }
    }
}

/// A template without `{{` is its own expansion, whatever the arguments.
pub proof fn plain_template_expands_to_itself(t: Seq<char>, args: Seq<Seq<char>>)
    requires
        forall|i: int| 0 <= i && i + 1 < t.len() ==> !(#[trigger] t[i] == '{' && t[i + 1] == '{'),
    ensures
        expansion(t, args) == t,
    decreases t.len(),
{
    if t.len() > 0 {
        let u = t.drop_first();
        if t.len() >= 2 {
            assert(!(t[0] == '{' && t[0int + 1] == '{'));
        }
        assert forall|i: int| 0 <= i && i + 1 < u.len() implies !(#[trigger] u[i] == '{' && u[i + 1]
            == '{') by {
            assert(u[i] == t[i + 1]);
            assert(u[i + 1] == t[i + 1 + 1]);
        }
        plain_template_expands_to_itself(u, args);
        assert(leading(t, args) is None);
        assert(seq![t[0]] + u =~= t);
    } else {
        assert(t =~= Seq::<char>::empty());
    }
}

fn expand_token(tok: &str, args: &Vec<String>) -> (r: Option<String>)
    ensures
        text::opt_text(r) == placeholder(tok@, text::texts(args@)),
{
    let t: String = text::trimmed(tok);
    if text::same(t.as_str(), "args") {
        return Some(text::joined(args, " "));
    }
    let v: Vec<char> = text::chars_of(t.as_str());
    let n: usize = v.len();
    if n > 0 && v[n - 1] == '*' {
        let stripped: String = text::string_of(&v, 0, n - 1);
        assert(stripped@ =~= t@.drop_last());
        return match text::parse_number(stripped.as_str(), usize::MAX as u64) {
            None => None,
            Some(k) => if k == 0 {
                None
            } else if k - 1 >= args.len() as u64 {
                let empty: String = String::new();
                assert(empty@ =~= Seq::<char>::empty());
                Some(empty)
            } else {
                Some(text::joined_from(args, (k - 1) as usize, " "))
            },
        };
    }
    match text::parse_number(t.as_str(), usize::MAX as u64) {
        None => None,
        Some(k) => if k == 0 {
            None
        } else if k - 1 >= args.len() as u64 {
            let empty: String = String::new();
            assert(empty@ =~= Seq::<char>::empty());
            Some(empty)
        } else {
            Some(args[(k - 1) as usize].clone())
        },
    }
}

fn find_close(v: &Vec<char>, start: usize, from: usize) -> (r: Option<usize>)
    requires
        start <= from <= v@.len(),
    ensures
        match r {
            Some(e) => close_from(v@.skip(start as int), from - start) == Some(e - start) && from
                <= e && e + 1 < v@.len(),
            None => close_from(v@.skip(start as int), from - start) is None,
        },
{
    let n: usize = v.len();
    let ghost t = v@.skip(start as int);
    let mut i: usize = from;
    while i < n && i + 1 < n
        invariant
            start <= from <= i <= n == v@.len(),
            t == v@.skip(start as int),
            close_from(t, from - start) == close_from(t, i - start),
        decreases n - i,
    {
        assert(t[i - start] == v@[i as int]);
        assert(t[i - start + 1] == v@[i + 1]);
        if v[i] == '}' && v[i + 1] == '}' {
            return Some(i);
        }
        i = i + 1;
    }
    None
}

/// A template with its placeholders filled in.
pub fn expand_template(template: &str, args: &[&str]) -> (r: String)
    ensures
        r@ == expansion(template@, text::str_texts(args@)),
{
    let owned: Vec<String> = text::owned(args);
    expand_words(template, &owned)
}

/// A template with its placeholders filled in.
pub fn expand_words(template: &str, args: &Vec<String>) -> (r: String)
    ensures
        r@ == expansion(template@, text::texts(args@)),
{
    let v: Vec<char> = text::chars_of(template);
    let n: usize = v.len();
    let ghost a = text::texts(args@);
    let mut out: String = String::new();
    let mut i: usize = 0;
    assert(v@.skip(0) =~= template@);
    assert(out@ + expansion(v@.skip(0), a) =~= expansion(template@, a));
    while i < n
        invariant
            i <= n == v@.len(),
            text::texts(args@) == a,
            out@ + expansion(v@.skip(i as int), a) == expansion(template@, a),
        decreases n - i,
    {
        let ghost t = v@.skip(i as int);
        let ghost before = out@;
        assert(t[0] == v@[i as int]);
        let mut end: usize = i;
        if n - i >= 2 && v[i] == '{' && v[i + 1] == '{' {
            assert(t[1] == v@[i + 1]);
            if let Some(e) = find_close(&v, i, i + 2) {
                let inner: String = text::string_of(&v, i + 2, e);
                assert(inner@ =~= t.subrange(2, e - i));
                if let Some(filled) = expand_token(inner.as_str(), args) {
                    out.append(filled.as_str());
                    end = e + 2;
                    assert(leading(t, a) == Some((filled@, end - i)));
                    assert(t.skip(end - i) =~= v@.skip(end as int));
                    assert(before + (filled@ + expansion(v@.skip(end as int), a)) =~= out@
                        + expansion(v@.skip(end as int), a));
                }
            }
        }
        if end == i {
            assert(leading(t, a) is None);
            out.push(v[i]);
            end = i + 1;
            assert(t.drop_first() =~= v@.skip(end as int));
            assert(before + (seq![t[0]] + expansion(v@.skip(end as int), a)) =~= out@ + expansion(
                v@.skip(end as int),
                a,
            ));
        }
        i = end;
    }
    assert(v@.skip(i as int) =~= Seq::<char>::empty());
    assert(out@ + expansion(v@.skip(i as int), a) =~= out@);
    out
}

// ── Laws of templates and lines ─────────────────────────────────────────

proof fn lemma_close_at(t: Seq<char>, i: int, e: int)
    requires
        0 <= i <= e,
        e + 1 < t.len(),
        forall|k: int| i <= k < e ==> t[k] != '}',
        t[e] == '}',
        t[e + 1] == '}',
    ensures
        close_from(t, i) == Some(e),
    decreases e - i,
{
    if i < e {
        lemma_close_at(t, i + 1, e);
    }
}

/// The text of a placeholder.
pub open spec fn braced(tok: Seq<char>) -> Seq<char> {
    "{{"@ + tok + "}}"@
}

proof fn lemma_braced(tok: Seq<char>, rest: Seq<char>, args: Seq<Seq<char>>)
    requires
        !tok.contains('}'),
    ensures
        match placeholder(tok, args) {
            Some(r) => expansion(braced(tok) + rest, args) == r + expansion(rest, args),
            None => !tok.contains('{') && tok.len() > 0 ==> expansion(braced(tok) + rest, args)
                == braced(tok) + expansion(rest, args),
        },
{
    reveal_strlit("{{");
    reveal_strlit("}}");
    let t = braced(tok) + rest;
    let e = 2 + tok.len() as int;
    assert(t[0] == '{' && t[1] == '{' && t[e] == '}' && t[e + 1] == '}');
    assert forall|k: int| 2 <= k < e implies t[k] != '}' by {
        assert(t[k] == tok[k - 2]);
    }
    lemma_close_at(t, 2, e);
    assert(t.subrange(2, e) =~= tok);
    match placeholder(tok, args) {
        Some(r) => {
            assert(t.skip(e + 2) =~= rest);
        },
        None => {
            if !tok.contains('{') && tok.len() > 0 {
                let u = t.drop_first();
                let p = tok + "}}"@;
                assert(u[0] == '{');
                assert(u[1] == tok[0]);
                assert(tok[0] != '{');
                assert(leading(u, args) is None);
                assert(u.drop_first() =~= p + rest);
                assert forall|k: int| 0 <= k < p.len() implies p[k] != '{' by {
                    if k < tok.len() {
                        assert(p[k] == tok[k]);
                    }
                }
                text_in_front_is_kept(p, rest, args);
                assert(expansion(u, args) == seq!['{'] + (p + expansion(rest, args)));
                assert(expansion(t, args) =~= braced(tok) + expansion(rest, args));
            }
        },
    }
}

/// Text without an opening brace is kept as it stands, in front of what the rest
/// expands to.
pub proof fn text_in_front_is_kept(p: Seq<char>, rest: Seq<char>, args: Seq<Seq<char>>)
    requires
        !p.contains('{'),
    ensures
        expansion(p + rest, args) == p + expansion(rest, args),
    decreases p.len(),
{
    let t = p + rest;
    if p.len() == 0 {
        assert(t =~= rest);
        assert(p + expansion(rest, args) =~= expansion(rest, args));
    } else {
        let q = p.drop_first();
        assert(t[0] == p[0]);
        assert(p[0] != '{');
        assert forall|i: int| 0 <= i < q.len() implies q[i] != '{' by {
            assert(q[i] == p[i + 1]);
        }
        assert(t.drop_first() =~= q + rest);
        text_in_front_is_kept(q, rest, args);
        assert(expansion(t, args) =~= p + expansion(rest, args));
    }
}

proof fn lemma_number(n: nat)
    ensures
        text::decimal(n).len() >= 1,
        text::trim(text::decimal(n)) == text::decimal(n),
        text::is_digit(text::decimal(n)[0]),
        text::is_digit(text::decimal(n).last()),
        !text::decimal(n).contains('}'),
        !text::decimal(n).contains('{'),
{
    let d = text::decimal(n);
    text::decimal_reads_back(n);
    assert(text::is_digit(d[0]) && text::is_digit(d[d.len() - 1]));
    text::lemma_trim_same(d);
    if d.contains('}') || d.contains('{') {
        let i = choose|i: int| 0 <= i < d.len() && (d[i] == '}' || d[i] == '{');
        assert(text::is_digit(d[i]));
    }
}

/// `{{n}}` stands for the argument `n`, counted from 1, and for nothing where there
/// are fewer; what stands behind it is expanded on its own.
pub proof fn numbered_placeholder_is_that_argument(
    n: nat,
    rest: Seq<char>,
    args: Seq<Seq<char>>,
)
    requires
        1 <= n <= usize::MAX,
    ensures
        n <= args.len() ==> expansion("{{"@ + text::decimal(n) + "}}"@, args) == args[n - 1],
        n <= args.len() ==> expansion("{{"@ + text::decimal(n) + "}}"@ + rest, args) == args[n - 1]
            + expansion(rest, args),
        n > args.len() ==> expansion("{{"@ + text::decimal(n) + "}}"@ + rest, args) == expansion(
            rest,
            args,
        ),
{
    let d = text::decimal(n);
    lemma_number(n);
    text::decimal_reads_back(n);
    reveal_strlit("args");
    assert("args"@[0] == 'a');
    lemma_braced(d, rest, args);
    let none = Seq::<char>::empty();
    lemma_braced(d, none, args);
    assert(braced(d) + none =~= braced(d));
    assert(expansion(none, args) =~= none);
    if n <= args.len() {
        assert(args[n - 1] + none =~= args[n - 1]);
    } else {
        assert(none + expansion(rest, args) =~= expansion(rest, args));
    }
}

/// `{{n*}}` stands for the arguments from `n` on with a space between each two,
/// and `{{args}}` for all of them.
pub proof fn starred_placeholder_is_the_remaining_arguments(
    n: nat,
    rest: Seq<char>,
    args: Seq<Seq<char>>,
)
    requires
        1 <= n <= usize::MAX,
    ensures
        n <= args.len() ==> expansion("{{"@ + text::decimal(n) + "*"@ + "}}"@ + rest, args)
            == text::join(args.skip(n - 1), " "@) + expansion(rest, args),
        n > args.len() ==> expansion("{{"@ + text::decimal(n) + "*"@ + "}}"@ + rest, args)
            == expansion(rest, args),
        expansion("{{args}}"@ + rest, args) == text::join(args, " "@) + expansion(rest, args),
{
    let d = text::decimal(n);
    let s = d + "*"@;
    reveal_strlit("*");
    lemma_number(n);
    text::decimal_reads_back(n);
    assert(s.last() == '*');
    assert(s[0] == d[0]);
    text::lemma_trim_same(s);
    assert(s.drop_last() =~= d);
    reveal_strlit("args");
    assert("args"@[0] == 'a');
    if s.contains('}') {
        let i = choose|i: int| 0 <= i < s.len() && s[i] == '}';
        assert(d[i] == '}');
    }
    lemma_braced(s, rest, args);
    assert(braced(s) =~= "{{"@ + text::decimal(n) + "*"@ + "}}"@);
    if n > args.len() {
        assert(Seq::<char>::empty() + expansion(rest, args) =~= expansion(rest, args));
    }
    text::lemma_trim_same("args"@);
    reveal_strlit("{{");
    reveal_strlit("}}");
    reveal_strlit("{{args}}");
    assert(braced("args"@) =~= "{{args}}"@);
    lemma_braced("args"@, rest, args);
}

/// Braces round anything else, a zero or a word, are kept as they stand.
pub proof fn other_braces_are_kept(w: Seq<char>, rest: Seq<char>, args: Seq<Seq<char>>)
    requires
        w != "args"@,
        w.len() > 0,
        forall|i: int| 0 <= i < w.len() ==> 'a' <= #[trigger] w[i] <= 'z',
    ensures
        expansion("{{"@ + w + "}}"@ + rest, args) == "{{"@ + w + "}}"@ + expansion(rest, args),
        expansion("{{0}}"@ + rest, args) == "{{0}}"@ + expansion(rest, args),
{
    assert('a' <= w[0] <= 'z' && 'a' <= w[w.len() - 1] <= 'z');
    text::lemma_trim_same(w);
    if w.contains('}') || w.contains('{') {
        let i = choose|i: int| 0 <= i < w.len() && (w[i] == '}' || w[i] == '{');
        assert('a' <= w[i] <= 'z');
    }
    assert(!text::is_digit(w[0]));
    lemma_braced(w, rest, args);
    lemma_number(0);
    text::decimal_reads_back(0);
    reveal_strlit("args");
    assert("args"@[0] == 'a');
    lemma_braced(text::decimal(0), rest, args);
    reveal_strlit("{{");
    reveal_strlit("}}");
    reveal_strlit("{{0}}");
    assert(braced(text::decimal(0)) =~= "{{0}}"@);
}

proof fn lemma_word_ends(s: Seq<char>, buf: Seq<char>, c: char, rest: Seq<char>)
    requires
        forall|k: int| 0 <= k < s.len() ==> !text::is_white(#[trigger] s[k]) && s[k] != '"',
        s.len() + buf.len() > 0,
        text::is_white(c),
    ensures
        words(s + seq![c] + rest, buf, false) == seq![buf + s] + words(rest, Seq::empty(), false),
    decreases s.len(),
{
    let t = s + seq![c] + rest;
    if s.len() == 0 {
        assert(t[0] == c);
        assert(t.drop_first() =~= rest);
        assert(buf + s =~= buf);
    } else {
        let u = s.drop_first();
        assert(t[0] == s[0]);
        assert(t.drop_first() =~= u + seq![c] + rest);
        assert forall|k: int| 0 <= k < u.len() implies !text::is_white(#[trigger] u[k]) && u[k]
            != '"' by {
            assert(u[k] == s[k + 1]);
        }
        lemma_word_ends(u, buf.push(s[0]), c, rest);
        assert(buf.push(s[0]) + u =~= buf + s);
    }
}

proof fn lemma_quote_ends(w: Seq<char>, buf: Seq<char>, rest: Seq<char>)
    requires
        !w.contains('"'),
        !w.contains('\\'),
    ensures
        words(w + seq!['"'] + rest, buf, true) == words(rest, buf + w, false),
    decreases w.len(),
{
    let t = w + seq!['"'] + rest;
    if w.len() == 0 {
        assert(t[0] == '"');
        assert(t.drop_first() =~= rest);
        assert(buf + w =~= buf);
    } else {
        let u = w.drop_first();
        assert(t[0] == w[0]);
        assert(w[0] != '"' && w[0] != '\\');
        assert(t.drop_first() =~= u + seq!['"'] + rest);
        assert forall|k: int| 0 <= k < u.len() implies u[k] != '"' && u[k] != '\\' by {
            assert(u[k] == w[k + 1]);
        }
        lemma_quote_ends(u, buf.push(w[0]), rest);
        assert(buf.push(w[0]) + u =~= buf + w);
    }
}

/// A line is cut into words at white space, except between quotes; a backslash
/// there lets the next character stand for itself, and the quotes are not part of
/// the word.
pub proof fn words_end_at_white_space(w: Seq<char>, c: char, d: char, rest: Seq<char>)
    requires
        w.len() > 0,
        text::is_white(c),
    ensures
        words(seq![c] + rest, Seq::empty(), false) == words(rest, Seq::empty(), false),
        (forall|k: int| 0 <= k < w.len() ==> !text::is_white(#[trigger] w[k]) && w[k] != '"')
            ==> words(w + seq![c] + rest, Seq::empty(), false) == seq![w] + words(
            rest,
            Seq::empty(),
            false,
        ),
        !w.contains('"') && !w.contains('\\') ==> words(
            seq!['"'] + w + seq!['"', c] + rest,
            Seq::empty(),
            false,
        ) == seq![w] + words(rest, Seq::empty(), false),
        words(seq!['"', '\\', d, '"', c] + rest, Seq::empty(), false) == seq![seq![d]] + words(
            rest,
            Seq::empty(),
            false,
        ),
{
    let none = Seq::<char>::empty();
    assert((seq![c] + rest).drop_first() =~= rest);
    if forall|k: int| 0 <= k < w.len() ==> !text::is_white(#[trigger] w[k]) && w[k] != '"' {
        lemma_word_ends(w, none, c, rest);
        assert(none + w =~= w);
    }
    if !w.contains('"') && !w.contains('\\') {
        let t = seq!['"'] + w + seq!['"', c] + rest;
        assert(t[0] == '"');
        assert(t.drop_first() =~= w + seq!['"'] + (seq![c] + rest));
        lemma_quote_ends(w, none, seq![c] + rest);
        assert(none + w =~= w);
        lemma_word_ends(none, w, c, rest);
        assert(none + seq![c] + rest =~= seq![c] + rest);
        assert(w + none =~= w);
    }
    let t = seq!['"', '\\', d, '"', c] + rest;
    let one = seq![d];
    assert(t[0] == '"');
    let t1 = t.drop_first();
    assert(t1[0] == '\\');
    let t2 = t1.drop_first();
    assert(t2[0] == d);
    let t3 = t2.drop_first();
    assert(t3[0] == '"');
    assert(none.push(d) =~= one);
    assert(t3.drop_first() =~= none + seq![c] + rest);
    lemma_word_ends(none, one, c, rest);
    assert(one + none =~= one);
    assert(words(t3, one, true) == words(t3.drop_first(), one, false));
    assert(words(t1, none, true) == words(t3, one, true));
}

/// A line with a slash in front is a command: its first word is the name and the
/// others are the arguments. A line with anything else in front is none.
pub proof fn slash_starts_a_command(w: Seq<char>, rest: Seq<char>, line: Seq<char>)
    requires
        w.len() > 0,
        forall|k: int| 0 <= k < w.len() ==> !text::is_white(#[trigger] w[k]) && w[k] != '"',
    ensures
        command_line("/"@ + w + " "@ + rest) == Some((w, words(rest, Seq::empty(), false))),
        line.len() > 0 && line[0] != '/' && !text::is_white(line[0]) ==> command_line(line) is None,
        command_line(seq![' '] + line) == command_line(line),
{
    reveal_strlit("/");
    reveal_strlit(" ");
    let t = "/"@ + w + " "@ + rest;
    assert(t[0] == '/');
    assert(t.drop_first() =~= w + seq![' '] + rest);
    words_end_at_white_space(w, ' ', 'x', rest);
    let v = seq![w] + words(rest, Seq::empty(), false);
    assert(v.drop_first() =~= words(rest, Seq::empty(), false));
    assert((seq![' '] + line).drop_first() =~= line);
}

/// A command keeps its name against later ones, save that a built-in command takes
/// the name of one that is not.
pub proof fn names_are_taken_once(all: Seq<CommandView>, c: CommandView, e: CommandView)
    requires
        distinct(all),
        named(all, normal(c.name)) == Some(e),
    ensures
        e.source == Source::Builtin || c.source != Source::Builtin ==> added(all, c) == all,
        e.source != Source::Builtin && c.source == Source::Builtin ==> named(
            added(all, c),
            normal(c.name),
        ) == Some(c),
        added(all, c).len() == all.len(),
{
    lemma_added(all, c, normal(c.name));
    lemma_place(all, normal(c.name));
}

proof fn lemma_dashes(s: Seq<char>)
    ensures
        text::replace_chars(s, seq!['-'], seq!['_']) == Seq::new(
            s.len(),
            |i: int|
                if s[i] == '-' {
                    '_'
                } else {
                    s[i]
                },
        ),
    decreases s.len(),
{
    let by = |i: int|
        if s[i] == '-' {
            '_'
        } else {
            s[i]
        };
    if s.len() > 0 {
        lemma_dashes(s.drop_last());
        assert(seq!['-'].contains(s.last()) <==> s.last() == '-') by {
            assert(seq!['-'][0] == '-');
        }
    }
    assert(text::replace_chars(s, seq!['-'], seq!['_']) =~= Seq::new(s.len(), by));
}

/// A name is told by its letters whatever their case, with `-` and `_` the same,
/// and a slash in front says nothing.
pub proof fn names_differ_in_letters_only(s: Seq<char>, i: int)
    requires
        text::all_ascii(s),
        0 <= i < s.len(),
        s[0] != '/',
    ensures
        normal(seq!['/'] + s) == normal(s),
        normal(s).len() == s.len(),
        s[i] == '-' ==> normal(s)[i] == '_',
        'A' <= s[i] <= 'Z' ==> normal(s)[i] as u32 == s[i] as u32 + 32,
        s[i] != '-' && !('A' <= s[i] <= 'Z') ==> normal(s)[i] == s[i],
{
    let slash = seq!['/'];
    assert(slash[0] == '/');
    assert(slash.contains('/'));
    assert(!slash.contains(s[0]));
    assert(text::strip_front(s, slash) == s);
    assert((slash + s).drop_first() =~= s);
    assert(text::strip_front(slash + s, slash) == s);
    lemma_dashes(s);
    let t = text::replace_chars(s, seq!['-'], seq!['_']);
    assert(text::all_ascii(t)) by {
        assert forall|k: int| 0 <= k < t.len() implies (#[trigger] t[k]) as u32 <= 0x7f by {
            assert(s[k] as u32 <= 0x7f);
        }
    }
}

proof fn lemma_never_closed(t: Seq<char>, i: int)
    requires
        !t.contains('}'),
        0 <= i,
    ensures
        close_from(t, i) is None,
    decreases t.len() - i,
{
    if i + 1 < t.len() {
        assert(t[i] != '}');
        lemma_never_closed(t, i + 1);
    }
}

/// Braces that are never closed are kept as they stand.
pub proof fn unclosed_braces_are_kept(t: Seq<char>, args: Seq<Seq<char>>)
    requires
        !t.contains('}'),
    ensures
        expansion(t, args) == t,
    decreases t.len(),
{
    if t.len() > 0 {
        lemma_never_closed(t, 2);
        let u = t.drop_first();
        assert forall|i: int| 0 <= i < u.len() implies u[i] != '}' by {
            assert(u[i] == t[i + 1]);
        }
        unclosed_braces_are_kept(u, args);
        assert(expansion(t, args) =~= t);
    }
}

} // verus!
