//! JSON values: the bodies, frames and free-form extras that the bridge
//! exchanges with agents, platforms and its own store.

use vstd::prelude::*;
use vstd::string::*;

use crate::text;

verus! {

/// A JSON value. A number keeps the text it is written as.
#[derive(Debug, PartialEq, Eq)]
pub enum Json {
    Null,
    Bool(bool),
    Number(String),
    Str(String),
    Array(Vec<Json>),
    Object(Vec<(String, Json)>),
}

/// What a JSON value is, over mathematical sequences.
pub enum JsonView {
    Null,
    Bool(bool),
    Number(Seq<char>),
    Str(Seq<char>),
    Array(Seq<JsonView>),
    Object(Seq<(Seq<char>, JsonView)>),
}

pub open spec fn json_view(j: Json) -> JsonView
    decreases j,
{
    match j {
        Json::Null => JsonView::Null,
        Json::Bool(b) => JsonView::Bool(b),
        Json::Number(n) => JsonView::Number(n@),
        Json::Str(s) => JsonView::Str(s@),
        Json::Array(v) => JsonView::Array(json_views(v@)),
        Json::Object(v) => JsonView::Object(member_views(v@)),
    }
}

pub open spec fn json_views(s: Seq<Json>) -> Seq<JsonView>
    decreases s,
{
    if s.len() == 0 {
        Seq::empty()
    } else {
        json_views(s.drop_last()).push(json_view(s.last()))
    }
}

pub open spec fn member_views(s: Seq<(String, Json)>) -> Seq<(Seq<char>, JsonView)>
    decreases s,
{
    if s.len() == 0 {
        Seq::empty()
    } else {
        member_views(s.drop_last()).push((s.last().0@, json_view(s.last().1)))
    }
}

impl View for Json {
    type V = JsonView;

    open spec fn view(&self) -> JsonView {
        json_view(*self)
    }
}

pub proof fn lemma_json_views(s: Seq<Json>)
    ensures
        json_views(s).len() == s.len(),
        forall|i: int| 0 <= i < s.len() ==> #[trigger] json_views(s)[i] == json_view(s[i]),
    decreases s.len(),
{
    if s.len() > 0 {
        lemma_json_views(s.drop_last());
    }
}

pub proof fn lemma_member_views(s: Seq<(String, Json)>)
    ensures
        member_views(s).len() == s.len(),
        forall|i: int|
            0 <= i < s.len() ==> #[trigger] member_views(s)[i] == (s[i].0@, json_view(s[i].1)),
    decreases s.len(),
{
    if s.len() > 0 {
        lemma_member_views(s.drop_last());
    }
}

impl Clone for Json {
    fn clone(&self) -> (r: Json)
        ensures
            r@ == self@,
        decreases self,
    {
        match self {
            Json::Null => Json::Null,
            Json::Bool(b) => Json::Bool(*b),
            Json::Number(n) => Json::Number(n.clone()),
            Json::Str(s) => Json::Str(s.clone()),
            Json::Array(v) => {
                let mut out: Vec<Json> = Vec::new();
                let mut i: usize = 0;
                while i < v.len()
                    invariant
                        i <= v@.len(),
                        json_views(out@) == json_views(v@.take(i as int)),
                        *self == Json::Array(*v),
                    decreases v@.len() - i,
                {
                    assert(decreases_to!(*self => self->Array_0));
                    assert(decreases_to!(v => v@));
                    assert(decreases_to!(v@ => v@[i as int]));
                    let c: Json = v[i].clone();
                    let ghost before = out@;
                    out.push(c);
                    assert(out@.drop_last() =~= before);
                    assert(v@.take(i + 1).drop_last() =~= v@.take(i as int));
                    i = i + 1;
                }
                assert(v@.take(i as int) =~= v@);
                Json::Array(out)
            },
            Json::Object(v) => {
                let mut out: Vec<(String, Json)> = Vec::new();
                let mut i: usize = 0;
                while i < v.len()
                    invariant
                        i <= v@.len(),
                        member_views(out@) == member_views(v@.take(i as int)),
                        *self == Json::Object(*v),
                    decreases v@.len() - i,
                {
                    assert(decreases_to!(*self => self->Object_0));
                    assert(decreases_to!(v => v@));
                    assert(decreases_to!(v@ => v@[i as int]));
                    assert(decreases_to!(v@[i as int] => v@[i as int].1));
                    let k: String = v[i].0.clone();
                    let c: Json = v[i].1.clone();
                    let ghost before = out@;
                    out.push((k, c));
                    assert(out@.drop_last() =~= before);
                    assert(v@.take(i + 1).drop_last() =~= v@.take(i as int));
                    i = i + 1;
                }
                assert(v@.take(i as int) =~= v@);
                Json::Object(out)
            },
        }
    }
}

// ── Reading ─────────────────────────────────────────────────────────────

/// The value of the first member of that name.
pub open spec fn member(o: Seq<(Seq<char>, JsonView)>, key: Seq<char>) -> Option<JsonView>
    decreases o.len(),
{
    if o.len() == 0 {
        None
    } else if o[0].0 == key {
        Some(o[0].1)
    } else {
        member(o.drop_first(), key)
    }
}

impl JsonView {
    /// The member of that name, where this is an object that has it.
    pub open spec fn get(self, key: Seq<char>) -> Option<JsonView> {
        match self {
            JsonView::Object(o) => member(o, key),
            _ => None,
        }
    }

    /// The text, where this is a string.
    pub open spec fn text(self) -> Option<Seq<char>> {
        match self {
            JsonView::Str(s) => Some(s),
            _ => None,
        }
    }

    /// The text of the member of that name, where it is a string.
    pub open spec fn get_text(self, key: Seq<char>) -> Option<Seq<char>> {
        match self.get(key) {
            Some(v) => v.text(),
            None => None,
        }
    }

    /// The number, where this is an integer of 64 bits without a sign.
    pub open spec fn number(self) -> Option<nat> {
        match self {
            JsonView::Number(n) => text::parse_upto(n, u64::MAX as int),
            _ => None,
        }
    }

    /// The integer, where this is one of 64 bits.
    pub open spec fn integer(self) -> Option<i64> {
        match self {
            JsonView::Number(n) => text::parse_i64(n),
            _ => None,
        }
    }

    /// The truth value, where this is one.
    pub open spec fn truth(self) -> Option<bool> {
        match self {
            JsonView::Bool(b) => Some(b),
            _ => None,
        }
    }

    /// The elements, none where this is no array.
    pub open spec fn elements(self) -> Seq<JsonView> {
        match self {
            JsonView::Array(a) => a,
            _ => Seq::empty(),
        }
    }
}

proof fn lemma_member_step(o: Seq<(Seq<char>, JsonView)>, key: Seq<char>, i: int)
    requires
        0 <= i < o.len(),
        o[i].0 != key,
        member(o, key) == member(o.skip(i), key),
    ensures
        member(o, key) == member(o.skip(i + 1), key),
{
    assert(o.skip(i).drop_first() =~= o.skip(i + 1));
}

impl Json {
    /// The member of that name, where this is an object that has it.
    pub fn get(&self, key: &str) -> (r: Option<&Json>)
        ensures
            match r {
                Some(j) => self@.get(key@) == Some(j@),
                None => self@.get(key@) is None,
            },
    {
        match self {
            Json::Object(v) => {
                let ghost o = member_views(v@);
                proof {
                    lemma_member_views(v@);
                    assert(o.skip(0) =~= o);
                }
                let mut i: usize = 0;
                while i < v.len()
                    invariant
                        i <= v@.len(),
                        o == member_views(v@),
                        o.len() == v@.len(),
                        forall|j: int|
                            0 <= j < v@.len() ==> #[trigger] o[j] == (v@[j].0@, json_view(v@[j].1)),
                        member(o, key@) == member(o.skip(i as int), key@),
                        self@.get(key@) == member(o, key@),
                    decreases v@.len() - i,
                {
                    assert(o[i as int] == (v@[i as int].0@, json_view(v@[i as int].1)));
                    assert(o.skip(i as int)[0] == o[i as int]);
                    if text::same(v[i].0.as_str(), key) {
                        return Some(&v[i].1);
                    }
                    proof {
                        lemma_member_step(o, key@, i as int);
                    }
                    i = i + 1;
                }
                assert(o.skip(i as int).len() == 0);
                None
            },
            _ => None,
        }
    }

    /// The text, where this is a string.
    pub fn as_text(&self) -> (r: Option<String>)
        ensures
            text::opt_text(r) == self@.text(),
    {
        match self {
            Json::Str(s) => Some(s.clone()),
            _ => None,
        }
    }

    /// The text of the member of that name, where it is a string.
    pub fn get_text(&self, key: &str) -> (r: Option<String>)
        ensures
            text::opt_text(r) == self@.get_text(key@),
    {
        match self.get(key) {
            Some(j) => j.as_text(),
            None => None,
        }
    }

    /// The number, where this is an integer of 64 bits without a sign.
    pub fn as_number(&self) -> (r: Option<u64>)
        ensures
            match r {
                Some(n) => self@.number() == Some(n as nat),
                None => self@.number() is None,
            },
    {
        match self {
            Json::Number(n) => text::parse_number(n.as_str(), u64::MAX),
            _ => None,
        }
    }

    /// The integer, where this is one of 64 bits.
    pub fn as_integer(&self) -> (r: Option<i64>)
        ensures
            r == self@.integer(),
    {
        match self {
            Json::Number(n) => text::parse_signed(n.as_str()),
            _ => None,
        }
    }

    /// The truth value, where this is one.
    pub fn as_bool(&self) -> (r: Option<bool>)
        ensures
            r == self@.truth(),
    {
        match self {
            Json::Bool(b) => Some(*b),
            _ => None,
        }
    }
}

// ── Structs ─────────────────────────────────────────────────────────────

/// The values of a list under the names of the positions they stand at.
pub open spec fn by_position(a: Seq<JsonView>, names: Seq<Seq<char>>) -> Seq<
    (Seq<char>, JsonView),
> {
    Seq::new(a.len(), |i: int| (names[i], a[i]))
}

/// A value that is read as a struct with fields of these names. It is an object,
/// or a list of the fields in their order, of which those behind the first
/// `least` may be missing. Nothing can be read from any other value.
pub open spec fn as_struct(j: JsonView, names: Seq<Seq<char>>, least: int) -> JsonView {
    match j {
        JsonView::Object(_) => j,
        JsonView::Array(a) => if least <= a.len() <= names.len() {
            JsonView::Object(by_position(a, names))
        } else {
            JsonView::Null
        },
        _ => JsonView::Null,
    }
}

/// The tag of a value that is read as a variant of several: the member of that
/// name, or what a list starts with.
pub open spec fn tag_of(j: JsonView, tag: Seq<char>) -> Option<JsonView> {
    match j {
        JsonView::Array(a) => if a.len() > 0 {
            Some(a[0])
        } else {
            None
        },
        _ => j.get(tag),
    }
}

/// The fields of a value that is read as a variant of several: those of a struct,
/// where a list has them behind the tag.
pub open spec fn as_variant(j: JsonView, names: Seq<Seq<char>>, least: int) -> JsonView {
    match j {
        JsonView::Array(a) => if a.len() > 0 {
            as_struct(JsonView::Array(a.drop_first()), names, least)
        } else {
            JsonView::Null
        },
        _ => as_struct(j, names, least),
    }
}

/// The tag of a value that is read as a variant of several, which is a text.
pub open spec fn plain_tag(j: JsonView, tag: Seq<char>) -> Option<Seq<char>> {
    match tag_of(j, tag) {
        Some(v) => v.text(),
        None => None,
    }
}

/// The tag of a value inside another variant, which is a text or the number of a
/// variant; no variant has the empty name.
pub open spec fn inner_tag(j: JsonView, tag: Seq<char>, variants: Seq<Seq<char>>) -> Option<
    Seq<char>,
> {
    match tag_of(j, tag) {
        Some(JsonView::Str(s)) => Some(s),
        Some(v) => match v.number() {
            Some(n) => if n < variants.len() {
                Some(variants[n as int])
            } else {
                Some(Seq::empty())
            },
            None => None,
        },
        None => None,
    }
}

/// A value that is read as a variant without fields: a list holds nothing but the
/// tag.
pub open spec fn lone_tag(j: JsonView) -> bool {
    j matches JsonView::Array(a) ==> a.len() == 1
}

/// The texts of a list of literals.
pub open spec fn strs(v: Seq<&str>) -> Seq<Seq<char>> {
    Seq::new(v.len(), |i: int| v[i]@)
}

fn name_values(v: &Vec<Json>, from: usize, names: &Vec<&str>) -> (r: Json)
    requires
        from <= v@.len(),
        v@.len() - from <= names@.len(),
    ensures
        r@ == JsonView::Object(by_position(json_views(v@).skip(from as int), strs(names@))),
{
    let mut out: Vec<(String, Json)> = Vec::new();
    let mut i: usize = from;
    proof {
        lemma_json_views(v@);
    }
    while i < v.len()
        invariant
            from <= i <= v@.len(),
            v@.len() - from <= names@.len(),
            out@.len() == i - from,
            forall|k: int|
                0 <= k < out@.len() ==> (#[trigger] out@[k]).0@ == names@[k]@ && out@[k].1@
                    == v@[k + from]@,
        decreases v@.len() - i,
    {
        let name: &str = names[i - from];
        out.push((name.to_string(), v[i].clone()));
        i = i + 1;
    }
    proof {
        lemma_member_views(out@);
        assert(member_views(out@) =~= by_position(json_views(v@).skip(from as int), strs(names@)));
    }
    Json::Object(out)
}

impl Json {
    /// The value as a struct with fields of these names.
    pub fn as_struct(&self, names: &Vec<&str>, least: usize) -> (r: Json)
        ensures
            r@ == as_struct(self@, strs(names@), least as int),
    {
        match self {
            Json::Object(_) => self.clone(),
            Json::Array(v) => {
                proof {
                    lemma_json_views(v@);
                    assert(json_views(v@).skip(0) =~= json_views(v@));
                }
                if least <= v.len() && v.len() <= names.len() {
                    name_values(v, 0, names)
                } else {
                    Json::Null
                }
            },
            _ => Json::Null,
        }
    }

    /// The tag of the value as a variant of several.
    pub fn tag(&self, tag: &str) -> (r: Option<&Json>)
        ensures
            match r {
                Some(j) => tag_of(self@, tag@) == Some(j@),
                None => tag_of(self@, tag@) is None,
            },
    {
        match self {
            Json::Array(v) => {
                proof {
                    lemma_json_views(v@);
                }
                if v.len() > 0 {
                    Some(&v[0])
                } else {
                    None
                }
            },
            _ => self.get(tag),
        }
    }

    /// The tag of the value as a variant of several, which is a text.
    pub fn plain_tag(&self, tag: &str) -> (r: Option<String>)
        ensures
            text::opt_text(r) == plain_tag(self@, tag@),
    {
        match self.tag(tag) {
            Some(v) => v.as_text(),
            None => None,
        }
    }

    /// The tag of the value inside another variant.
    pub fn inner_tag(&self, tag: &str, variants: &Vec<&str>) -> (r: Option<String>)
        ensures
            text::opt_text(r) == inner_tag(self@, tag@, strs(variants@)),
    {
        match self.tag(tag) {
            None => None,
            Some(v) => match v {
                Json::Str(s) => Some(s.clone()),
                _ => match v.as_number() {
                    Some(n) => if n < variants.len() as u64 {
                        let name: &str = variants[n as usize];
                        Some(name.to_string())
                    } else {
                        let empty: String = String::new();
                        assert(empty@ =~= Seq::<char>::empty());
                        Some(empty)
                    },
                    None => None,
                },
            },
        }
    }

    /// Whether the value can be a variant without fields.
    pub fn lone_tag(&self) -> (r: bool)
        ensures
            r == lone_tag(self@),
    {
        match self {
            Json::Array(v) => {
                proof {
                    lemma_json_views(v@);
                }
                v.len() == 1
            },
            _ => true,
        }
    }

    /// The fields of the value as a variant of several.
    pub fn as_variant(&self, names: &Vec<&str>, least: usize) -> (r: Json)
        ensures
            r@ == as_variant(self@, strs(names@), least as int),
    {
        match self {
            Json::Array(v) => {
                proof {
                    lemma_json_views(v@);
                }
                if v.len() == 0 {
                    return Json::Null;
                }
                assert(json_views(v@).skip(1) =~= json_views(v@).drop_first());
                let count: usize = v.len() - 1;
                if least <= count && count <= names.len() {
                    name_values(v, 1, names)
                } else {
                    Json::Null
                }
            },
            _ => self.as_struct(names, least),
        }
    }
}

// ── Building ────────────────────────────────────────────────────────────

/// The integer `i` as a JSON number.
pub open spec fn int_json(i: int) -> JsonView {
    JsonView::Number(text::integer(i))
}

/// The object without members.
pub open spec fn no_members() -> Seq<(Seq<char>, JsonView)> {
    Seq::empty()
}

/// A JSON string.
pub fn str_json(s: &str) -> (r: Json)
    ensures
        r@ == JsonView::Str(s@),
{
    Json::Str(s.to_string())
}

/// A JSON string, or null where there is none.
pub open spec fn opt_str_json(s: Option<Seq<char>>) -> JsonView {
    match s {
        Some(t) => JsonView::Str(t),
        None => JsonView::Null,
    }
}

/// A JSON string, or null where there is none.
pub fn opt_json(s: &Option<String>) -> (r: Json)
    ensures
        r@ == opt_str_json(text::opt_text(*s)),
{
    match s {
        Some(t) => Json::Str(t.clone()),
        None => Json::Null,
    }
}

/// A JSON number.
pub fn number_json(i: i64) -> (r: Json)
    ensures
        r@ == int_json(i as int),
{
    Json::Number(text::integer_text(i))
}

/// A JSON number.
pub fn count_json(n: u64) -> (r: Json)
    ensures
        r@ == int_json(n as int),
{
    Json::Number(text::decimal_text(n))
}

/// The members of an object under construction.
pub struct Members {
    pub list: Vec<(String, Json)>,
}

impl View for Members {
    type V = Seq<(Seq<char>, JsonView)>;

    open spec fn view(&self) -> Seq<(Seq<char>, JsonView)> {
        member_views(self.list@)
    }
}

impl Members {
    pub fn new() -> (r: Members)
        ensures
            r@ == no_members(),
    {
        Members { list: Vec::new() }
    }

    /// One more member, at the end.
    pub fn with(self, key: &str, value: Json) -> (r: Members)
        ensures
            r@ == self@.push((key@, value@)),
    {
        let mut list = self.list;
        let ghost before = list@;
        list.push((key.to_string(), value));
        assert(list@.drop_last() =~= before);
        Members { list }
    }

    /// One more member that is a string.
    pub fn with_str(self, key: &str, value: &str) -> (r: Members)
        ensures
            r@ == self@.push((key@, JsonView::Str(value@))),
    {
        self.with(key, str_json(value))
    }

    /// The object with these members.
    pub fn object(self) -> (r: Json)
        ensures
            r@ == JsonView::Object(self@),
    {
        Json::Object(self.list)
    }
}

/// An array of the given elements.
pub fn array_json(items: Vec<Json>) -> (r: Json)
    ensures
        r@ == JsonView::Array(json_views(items@)),
{
    Json::Array(items)
}

/// An array of one element.
pub fn single_json(item: Json) -> (r: Json)
    ensures
        r@ == JsonView::Array(seq![item@]),
{
    let mut items: Vec<Json> = Vec::new();
    let ghost v = item@;
    items.push(item);
    proof {
        lemma_json_views(items@);
        assert(json_views(items@) =~= seq![v]);
    }
    Json::Array(items)
}

/// The array of the given texts.
pub open spec fn texts_json(v: Seq<Seq<char>>) -> JsonView {
    JsonView::Array(Seq::new(v.len(), |i: int| JsonView::Str(v[i])))
}

/// The array of the given texts.
pub fn strings_json(v: &[String]) -> (r: Json)
    ensures
        r@ == texts_json(text::texts(v@)),
{
    let mut items: Vec<Json> = Vec::new();
    let mut i: usize = 0;
    while i < v.len()
        invariant
            i <= v@.len(),
            items@.len() == i,
            forall|j: int| 0 <= j < i ==> json_view(#[trigger] items@[j]) == JsonView::Str(v@[j]@),
        decreases v@.len() - i,
    {
        items.push(Json::Str(v[i].clone()));
        i = i + 1;
    }
    proof {
        lemma_json_views(items@);
        let all = text::texts(v@);
        assert(json_views(items@) =~= Seq::new(all.len(), |i: int| JsonView::Str(all[i])));
    }
    Json::Array(items)
}

// ── Text form ───────────────────────────────────────────────────────────

/// Declares `serde_json::Value`.
#[verifier::external_type_specification]
#[verifier::external_body]
pub struct ExValue(serde_json::Value);

/// The compact text of a JSON value.
pub uninterp spec fn rendered(j: JsonView) -> Seq<char>;

/// The JSON value that a text denotes, if it denotes one.
pub uninterp spec fn parsed(s: Seq<char>) -> Option<JsonView>;

/// The names of the members, in order.
pub open spec fn member_names(o: Seq<(Seq<char>, JsonView)>) -> Seq<Seq<char>> {
    Seq::new(o.len(), |i: int| o[i].0)
}

/// An integer of 64 bits in decimal notation.
pub open spec fn integer_text(n: Seq<char>) -> bool {
    exists|i: int| i64::MIN <= i <= u64::MAX && n == #[trigger] text::integer(i)
}

/// A value that keeps its form when it is written and read: its numbers are
/// integers of 64 bits, the members of its objects are in the order of their
/// names, no name occurs twice, and it is nested at most `depth` deep.
pub open spec fn canonical(j: JsonView, depth: nat) -> bool
    decreases depth,
{
    match j {
        JsonView::Number(n) => integer_text(n),
        JsonView::Array(a) => depth > 0 && forall|i: int|
            0 <= i < a.len() ==> canonical(#[trigger] a[i], (depth - 1) as nat),
        JsonView::Object(o) => depth > 0 && (forall|i: int, j: int|
            0 <= i < j < o.len() ==> text::before((#[trigger] o[i]).0, (#[trigger] o[j]).0)) && (
        forall|i: int| 0 <= i < o.len() ==> canonical((#[trigger] o[i]).1, (depth - 1) as nat)),
        _ => true,
    }
}

/// A `serde_json::Value` with the same content, for `render`.
#[verifier::external_body]
fn value_of(j: &Json) -> serde_json::Value {
    match j {
        Json::Null => serde_json::Value::Null,
        Json::Bool(b) => serde_json::Value::Bool(*b),
        Json::Number(n) => serde_json::from_str(n).unwrap_or_default(),
        Json::Str(s) => serde_json::Value::String(s.clone()),
        Json::Array(a) => serde_json::Value::Array(a.iter().map(value_of).collect()),
        Json::Object(o) => {
            serde_json::Value::Object(o.iter().map(|(k, v)| (k.clone(), value_of(v))).collect())
        },
    }
}

/// A `Json` with the content of a `serde_json::Value`, for `parse`.
#[verifier::external_body]
fn json_of(v: serde_json::Value) -> Json {
    match v {
        serde_json::Value::Null => Json::Null,
        serde_json::Value::Bool(b) => Json::Bool(b),
        serde_json::Value::Number(n) => Json::Number(n.to_string()),
        serde_json::Value::String(s) => Json::Str(s),
        serde_json::Value::Array(a) => Json::Array(a.into_iter().map(json_of).collect()),
        serde_json::Value::Object(o) => {
            Json::Object(o.into_iter().map(|(k, v)| (k, json_of(v))).collect())
        },
    }
}

/// `serde_json::Value::to_string`: the compact text of a value. The text holds
/// no line feed, since those in strings are escaped. A value in canonical form
/// that is nested at most 100 deep is read back from it; nothing is said of
/// reading back others (a repeated member name keeps one value, members come
/// out in the order of their names).
#[verifier::external_body]
pub(crate) fn render(j: &Json) -> (r: String)
    ensures
        r@ == rendered(j@),
        canonical(j@, 100) ==> parsed(r@) == Some(j@),
        !r@.contains('\n'),
{
    value_of(j).to_string()
}

/// `serde_json::from_str` into a `serde_json::Value`; none where the text is no
/// JSON. Such a value keeps one of the members that share a name, so that readers
/// of it cannot tell that a name was repeated.
#[verifier::external_body]
pub(crate) fn parse(s: &str) -> (r: Option<Json>)
    ensures
        match r {
            Some(j) => parsed(s@) == Some(j@),
            None => parsed(s@) is None,
        },
{
    serde_json::from_str::<serde_json::Value>(s).ok().map(json_of)
}

/// The JSON value that the bytes of a text denote, if they denote one.
pub uninterp spec fn parsed_bytes(b: Seq<u8>) -> Option<JsonView>;

/// `serde_json::from_slice` into a `serde_json::Value`; none where the bytes are
/// no JSON. As with `parse`, repeated names are not seen.
#[verifier::external_body]
pub(crate) fn parse_bytes(b: &[u8]) -> (r: Option<Json>)
    ensures
        match r {
            Some(j) => parsed_bytes(b@) == Some(j@),
            None => parsed_bytes(b@) is None,
        },
{
    serde_json::from_slice::<serde_json::Value>(b).ok().map(json_of)
}

/// A copy of a list of values.
pub fn copy_values(v: &Vec<Json>) -> (r: Vec<Json>)
    ensures
        json_views(r@) == json_views(v@),
{
    let mut out: Vec<Json> = Vec::new();
    let mut i: usize = 0;
    while i < v.len()
        invariant
            i <= v@.len(),
            out@.len() == i,
            forall|j: int| 0 <= j < i ==> (#[trigger] out@[j])@ == v@[j]@,
        decreases v@.len() - i,
    {
        out.push(v[i].clone());
        i = i + 1;
    }
    proof {
        lemma_json_views(out@);
        lemma_json_views(v@);
        assert(json_views(out@) =~= json_views(v@));
    }
    out
}

impl Json {
    /// The compact text of the value.
    pub fn to_text(&self) -> (r: String)
        ensures
            r@ == rendered(self@),
            canonical(self@, 100) ==> parsed(r@) == Some(self@),
    {
        render(self)
    }

    /// The value that a text denotes, if it denotes one.
    pub fn of_text(s: &str) -> (r: Option<Json>)
        ensures
            match r {
                Some(j) => parsed(s@) == Some(j@),
                None => parsed(s@) is None,
            },
    {
        parse(s)
    }
}

// ── Laws ────────────────────────────────────────────────────────────────

/// A member is found under its name: the first of that name, and none under a name
/// that does not occur.
pub proof fn members_are_found_by_name(o: Seq<(Seq<char>, JsonView)>, i: int, key: Seq<char>)
    ensures
        0 <= i < o.len() && (forall|k: int| 0 <= k < i ==> (#[trigger] o[k]).0 != o[i].0)
            ==> JsonView::Object(o).get(o[i].0) == Some(o[i].1),
        (forall|k: int| 0 <= k < o.len() ==> (#[trigger] o[k]).0 != key) ==> JsonView::Object(o).get(
            key,
        ) is None,
    decreases o.len(),
{
    if o.len() > 0 {
        let t = o.drop_first();
        members_are_found_by_name(t, i - 1, key);
        if 0 < i < o.len() && (forall|k: int| 0 <= k < i ==> (#[trigger] o[k]).0 != o[i].0) {
            assert(t[i - 1] == o[i]);
            assert forall|k: int| 0 <= k < i - 1 implies (#[trigger] t[k]).0 != t[i - 1].0 by {
                assert(t[k] == o[k + 1]);
            }
            assert(o[0].0 != o[i].0);
        }
        if forall|k: int| 0 <= k < o.len() ==> (#[trigger] o[k]).0 != key {
            assert forall|k: int| 0 <= k < t.len() implies (#[trigger] t[k]).0 != key by {
                assert(t[k] == o[k + 1]);
            }
        }
    }
}

/// A value is read as what it is and as nothing else.
pub proof fn values_are_read_as_they_are(s: Seq<char>, b: bool, i: int, a: Seq<JsonView>)
    ensures
        JsonView::Str(s).text() == Some(s),
        JsonView::Bool(b).truth() == Some(b),
        i64::MIN <= i <= i64::MAX ==> int_json(i).integer() == Some(i as i64),
        0 <= i <= u64::MAX ==> int_json(i).number() == Some(i as nat),
        JsonView::Array(a).elements() == a,
        JsonView::Null.text() is None && JsonView::Bool(b).text() is None && int_json(i).text()
            is None && JsonView::Array(a).text() is None,
        JsonView::Null.truth() is None && JsonView::Str(s).truth() is None,
        JsonView::Str(s).number() is None && JsonView::Str(s).integer() is None,
        JsonView::Str(s).elements().len() == 0,
{
    text::integer_reads_back(i);
    if i >= 0 {
        text::decimal_reads_back(i as nat);
    }
}

/// A list is read as a struct field by field, in the order of their names; too long
/// a list, or one without the fields that must be there, is not.
pub proof fn lists_are_read_by_position(
    a: Seq<JsonView>,
    names: Seq<Seq<char>>,
    least: int,
    i: int,
    o: Seq<(Seq<char>, JsonView)>,
)
    requires
        names.no_duplicates(),
    ensures
        as_struct(JsonView::Object(o), names, least) == JsonView::Object(o),
        least <= a.len() <= names.len() && 0 <= i < a.len() ==> as_struct(
            JsonView::Array(a),
            names,
            least,
        ).get(names[i]) == Some(a[i]),
        least <= a.len() <= names.len() && a.len() <= i < names.len() ==> as_struct(
            JsonView::Array(a),
            names,
            least,
        ).get(names[i]) is None,
        a.len() < least || a.len() > names.len() ==> as_struct(JsonView::Array(a), names, least)
            == JsonView::Null,
{
    if least <= a.len() <= names.len() && 0 <= i < names.len() {
        let p = by_position(a, names);
        assert forall|k: int| 0 <= k < a.len() && k != i implies (#[trigger] p[k]).0 != names[i] by {
            assert(p[k].0 == names[k]);
        }
        members_are_found_by_name(p, i, names[i]);
    }
}

/// A variant has its tag under the name of the tag, or in front of its fields.
pub proof fn tags_come_first(v: JsonView, a: Seq<JsonView>, o: Seq<(Seq<char>, JsonView)>, tag: Seq<char>, names: Seq<Seq<char>>, least: int)
    ensures
        tag_of(JsonView::Array(seq![v] + a), tag) == Some(v),
        as_variant(JsonView::Array(seq![v] + a), names, least) == as_struct(
            JsonView::Array(a),
            names,
            least,
        ),
        tag_of(JsonView::Object(o), tag) == JsonView::Object(o).get(tag),
        as_variant(JsonView::Object(o), names, least) == JsonView::Object(o),
        lone_tag(JsonView::Array(seq![v] + a)) <==> a.len() == 0,
        lone_tag(JsonView::Object(o)),
{
    assert((seq![v] + a).drop_first() =~= a);
    assert((seq![v] + a)[0] == v);
}

} // verus!
