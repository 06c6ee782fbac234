//! Text primitives: every chat line, wire frame and reply of the bridge is
//! taken apart and put together with the functions of this module.
//!
//! Contracts speak of a string as the sequence of its characters.

use vstd::prelude::*;
use vstd::string::*;

verus! {

/// `String::push` appends exactly the given character.
pub assume_specification [String::push](s: &mut String, c: char)
    ensures
        final(s)@ == old(s)@.push(c),
;

// ── Views of collections of strings ─────────────────────────────────────

/// The texts of a sequence of strings.
pub open spec fn texts(v: Seq<String>) -> Seq<Seq<char>> {
    Seq::new(v.len(), |i: int| v[i]@)
}

/// The texts of a sequence of string slices.
pub open spec fn str_texts(v: Seq<&str>) -> Seq<Seq<char>> {
    Seq::new(v.len(), |i: int| v[i]@)
}

/// Owned copies of string slices.
pub fn owned(v: &[&str]) -> (r: Vec<String>)
    ensures
        texts(r@) == str_texts(v@),
{
    let mut out: Vec<String> = Vec::new();
    let mut i: usize = 0;
    while i < v.len()
        invariant
            i <= v@.len(),
            out@.len() == i,
            forall|j: int| 0 <= j < i ==> (#[trigger] out@[j])@ == v@[j]@,
        decreases v@.len() - i,
    {
        out.push(v[i].to_string());
        i = i + 1;
    }
    assert(texts(out@) =~= str_texts(v@));
    out
}

/// The text of an optional string.
pub open spec fn opt_text(o: Option<String>) -> Option<Seq<char>> {
    match o {
        Some(s) => Some(s@),
        None => None,
    }
}

/// The texts of a sequence of pairs.
pub open spec fn pair_texts(v: Seq<(String, String)>) -> Seq<(Seq<char>, Seq<char>)> {
    Seq::new(v.len(), |i: int| (v[i].0@, v[i].1@))
}

// ── Characters ──────────────────────────────────────────────────────────

/// The characters with the Unicode `White_Space` property.
pub open spec fn is_white(c: char) -> bool {
    ||| 0x09 <= c as u32 <= 0x0d
    ||| c as u32 == 0x20
    ||| c as u32 == 0x85
    ||| c as u32 == 0xa0
    ||| c as u32 == 0x1680
    ||| 0x2000 <= c as u32 <= 0x200a
    ||| c as u32 == 0x2028
    ||| c as u32 == 0x2029
    ||| c as u32 == 0x202f
    ||| c as u32 == 0x205f
    ||| c as u32 == 0x3000
}

/// Whether `c` is white space.
pub fn white(c: char) -> (r: bool)
    ensures
        r == is_white(c),
{
    let n: u32 = c as u32;
    (0x09 <= n && n <= 0x0d) || n == 0x20 || n == 0x85 || n == 0xa0 || n == 0x1680 || (0x2000 <= n
        && n <= 0x200a) || n == 0x2028 || n == 0x2029 || n == 0x202f || n == 0x205f || n == 0x3000
}

/// The characters of the Unicode category `Cc`.
pub open spec fn is_control(c: char) -> bool {
    c as u32 <= 0x1f || 0x7f <= c as u32 <= 0x9f
}

/// Whether `c` is a control character.
pub fn control(c: char) -> (r: bool)
    ensures
        r == is_control(c),
{
    let n: u32 = c as u32;
    n <= 0x1f || (0x7f <= n && n <= 0x9f)
}

pub open spec fn is_digit(c: char) -> bool {
    '0' <= c <= '9'
}

/// ASCII letters and digits.
pub open spec fn is_ascii_alnum(c: char) -> bool {
    is_digit(c) || 'a' <= c <= 'z' || 'A' <= c <= 'Z'
}

/// Whether `c` is an ASCII letter or digit.
pub fn ascii_alnum(c: char) -> (r: bool)
    ensures
        r == is_ascii_alnum(c),
{
    let n: u32 = c as u32;
    (48 <= n && n <= 57) || (97 <= n && n <= 122) || (65 <= n && n <= 90)
}

/// `A`–`Z` become `a`–`z`; every other character stays.
pub open spec fn lower_char(c: char) -> char {
    if 'A' <= c <= 'Z' {
        ((c as u32 + 32) as u32) as char
    } else {
        c
    }
}

pub open spec fn lower_ascii(s: Seq<char>) -> Seq<char> {
    Seq::new(s.len(), |i: int| lower_char(s[i]))
}

/// A text whose characters are all ASCII.
pub open spec fn all_ascii(s: Seq<char>) -> bool {
    forall|i: int| 0 <= i < s.len() ==> (#[trigger] s[i]) as u32 <= 0x7f
}

fn lowered_char(c: char) -> (r: char)
    ensures
        r == lower_char(c),
{
    let n: u32 = c as u32;
    if 65 <= n && n <= 90 {
        let b: u8 = (n + 32) as u8;
        b as char
    } else {
        c
    }
}

/// `A`–`Z` become `a`–`z`; every other character stays.
pub fn lowered(s: &str) -> (r: String)
    ensures
        r@ == lower_ascii(s@),
{
    let v: Vec<char> = chars_of(s);
    let mut out: String = String::new();
    let mut i: usize = 0;
    while i < v.len()
        invariant
            i <= v@.len(),
            v@ == s@,
            out@ == lower_ascii(s@).take(i as int),
        decreases v@.len() - i,
    {
        out.push(lowered_char(v[i]));
        i = i + 1;
        assert(lower_ascii(s@).take(i as int) =~= lower_ascii(s@).take(i - 1).push(
            lower_ascii(s@)[i - 1],
        ));
    }
    assert(lower_ascii(s@).take(i as int) =~= lower_ascii(s@));
    out
}

// ── Conversion ──────────────────────────────────────────────────────────

/// The characters of `s`.
pub fn chars_of(s: &str) -> (r: Vec<char>)
    ensures
        r@ == s@,
{
    let mut out: Vec<char> = Vec::new();
    for c in it: s.chars()
        invariant
            it.seq() == s@,
            out@ == s@.take(it.index() as int),
    {
        out.push(c);
    }
    assert(s@.take(s@.len() as int) =~= s@);
    out
}

/// The string made of `v[from..to]`.
pub fn string_of(v: &[char], from: usize, to: usize) -> (r: String)
    requires
        from <= to <= v@.len(),
    ensures
        r@ == v@.subrange(from as int, to as int),
{
    let mut out: String = String::new();
    let mut i: usize = from;
    while i < to
        invariant
            from <= i <= to <= v@.len(),
            out@ == v@.subrange(from as int, i as int),
        decreases to - i,
    {
        out.push(v[i]);
        i = i + 1;
        assert(v@.subrange(from as int, i as int) =~= v@.subrange(from as int, i - 1).push(
            v@[i - 1],
        ));
    }
    out
}

/// Whether two texts are the same.
pub fn same(a: &str, b: &str) -> (r: bool)
    ensures
        r == (a@ == b@),
{
    let x: Vec<char> = chars_of(a);
    let y: Vec<char> = chars_of(b);
    if x.len() != y.len() {
        return false;
    }
    let mut i: usize = 0;
    while i < x.len()
        invariant
            i <= x@.len(),
            x@.len() == y@.len(),
            x@ == a@,
            y@ == b@,
            forall|j: int| 0 <= j < i ==> x@[j] == y@[j],
        decreases x@.len() - i,
    {
        if x[i] != y[i] {
            return false;
        }
        i = i + 1;
    }
    assert(a@ =~= b@);
    true
}

/// `a` followed by `b`.
pub fn concat2(a: &str, b: &str) -> (r: String)
    ensures
        r@ == a@ + b@,
{
    let mut out: String = a.to_string();
    out.append(b);
    out
}

/// `a`, `b` and `c` in a row.
pub fn concat3(a: &str, b: &str, c: &str) -> (r: String)
    ensures
        r@ == a@ + b@ + c@,
{
    let mut out: String = a.to_string();
    out.append(b);
    out.append(c);
    out
}

// ── Trimming ────────────────────────────────────────────────────────────

/// `s` without the white space it starts with.
pub open spec fn trim_start(s: Seq<char>) -> Seq<char>
    decreases s.len(),
{
    if s.len() > 0 && is_white(s[0]) {
        trim_start(s.drop_first())
    } else {
        s
    }
}

/// `s` without the white space it ends with.
pub open spec fn trim_end(s: Seq<char>) -> Seq<char>
    decreases s.len(),
{
    if s.len() > 0 && is_white(s.last()) {
        trim_end(s.drop_last())
    } else {
        s
    }
}

/// `s` without the white space around it.
pub open spec fn trim(s: Seq<char>) -> Seq<char> {
    trim_end(trim_start(s))
}

/// `s` without the characters of `set` it starts with.
pub open spec fn strip_front(s: Seq<char>, set: Seq<char>) -> Seq<char>
    decreases s.len(),
{
    if s.len() > 0 && set.contains(s[0]) {
        strip_front(s.drop_first(), set)
    } else {
        s
    }
}

/// `s` without the characters of `set` it ends with.
pub open spec fn strip_back(s: Seq<char>, set: Seq<char>) -> Seq<char>
    decreases s.len(),
{
    if s.len() > 0 && set.contains(s.last()) {
        strip_back(s.drop_last(), set)
    } else {
        s
    }
}

fn white_prefix(v: &[char]) -> (i: usize)
    ensures
        i <= v@.len(),
        trim_start(v@) == v@.skip(i as int),
{
    let mut i: usize = 0;
    assert(v@.skip(0) =~= v@);
    while i < v.len() && white(v[i])
        invariant
            i <= v@.len(),
            trim_start(v@) == trim_start(v@.skip(i as int)),
        decreases v@.len() - i,
    {
        assert(v@.skip(i as int).drop_first() =~= v@.skip(i + 1));
        i = i + 1;
    }
    i
}

fn white_suffix(v: &[char], from: usize) -> (j: usize)
    requires
        from <= v@.len(),
    ensures
        from <= j <= v@.len(),
        trim_end(v@.skip(from as int)) == v@.subrange(from as int, j as int),
{
    let mut j: usize = v.len();
    assert(v@.skip(from as int) =~= v@.subrange(from as int, v@.len() as int));
    while j > from && white(v[j - 1])
        invariant
            from <= j <= v@.len(),
            trim_end(v@.skip(from as int)) == trim_end(v@.subrange(from as int, j as int)),
        decreases j,
    {
        assert(v@.subrange(from as int, j as int).drop_last() =~= v@.subrange(from as int, j - 1));
        j = j - 1;
    }
    j
}

/// `s` without the white space around it.
pub fn trimmed(s: &str) -> (r: String)
    ensures
        r@ == trim(s@),
{
    let v: Vec<char> = chars_of(s);
    let i: usize = white_prefix(&v);
    let j: usize = white_suffix(&v, i);
    string_of(&v, i, j)
}

/// `s` without the white space it starts with.
pub fn trimmed_start(s: &str) -> (r: String)
    ensures
        r@ == trim_start(s@),
{
    let v: Vec<char> = chars_of(s);
    let i: usize = white_prefix(&v);
    let n: usize = v.len();
    assert(v@.skip(i as int) =~= v@.subrange(i as int, n as int));
    string_of(&v, i, n)
}

fn member(c: char, set: &[char]) -> (r: bool)
    ensures
        r == set@.contains(c),
{
    let mut i: usize = 0;
    while i < set.len()
        invariant
            i <= set@.len(),
            forall|j: int| 0 <= j < i ==> set@[j] != c,
        decreases set@.len() - i,
    {
        if set[i] == c {
            return true;
        }
        i = i + 1;
    }
    false
}

/// `s` without the characters of `set` it starts with.
pub fn stripped_front(s: &str, set: &[char]) -> (r: String)
    ensures
        r@ == strip_front(s@, set@),
{
    let v: Vec<char> = chars_of(s);
    let n: usize = v.len();
    let mut i: usize = 0;
    assert(v@.skip(0) =~= v@);
    while i < n && member(v[i], set)
        invariant
            i <= n == v@.len(),
            strip_front(v@, set@) == strip_front(v@.skip(i as int), set@),
        decreases n - i,
    {
        assert(v@.skip(i as int).drop_first() =~= v@.skip(i + 1));
        i = i + 1;
    }
    assert(v@.skip(i as int) =~= v@.subrange(i as int, n as int));
    string_of(&v, i, n)
}

/// `s` without the characters of `set` it ends with.
pub fn stripped_back(s: &str, set: &[char]) -> (r: String)
    ensures
        r@ == strip_back(s@, set@),
{
    let v: Vec<char> = chars_of(s);
    let mut j: usize = v.len();
    assert(v@.subrange(0, j as int) =~= v@);
    while j > 0 && member(v[j - 1], set)
        invariant
            j <= v@.len(),
            strip_back(v@, set@) == strip_back(v@.subrange(0, j as int), set@),
        decreases j,
    {
        assert(v@.subrange(0, j as int).drop_last() =~= v@.subrange(0, j - 1));
        j = j - 1;
    }
    string_of(&v, 0, j)
}

// ── Searching ───────────────────────────────────────────────────────────

/// `pat` stands in `s` at position `i`.
pub open spec fn occurs_at(s: Seq<char>, pat: Seq<char>, i: int) -> bool {
    0 <= i && i + pat.len() <= s.len() && s.subrange(i, i + pat.len()) == pat
}

/// `pat` stands somewhere in `s`.
pub open spec fn occurs(s: Seq<char>, pat: Seq<char>) -> bool {
    exists|i: int| #[trigger] occurs_at(s, pat, i)
}

/// `i` is the first position at or after `from` where `pat` stands in `s`.
pub open spec fn first_at(s: Seq<char>, pat: Seq<char>, from: int, i: int) -> bool {
    &&& from <= i
    &&& occurs_at(s, pat, i)
    &&& forall|j: int| from <= j < i ==> !#[trigger] occurs_at(s, pat, j)
}

/// `pat` does not stand in `s` at or after `from`.
pub open spec fn none_from(s: Seq<char>, pat: Seq<char>, from: int) -> bool {
    forall|j: int| from <= j ==> !#[trigger] occurs_at(s, pat, j)
}

/// Whether `pat` stands in `v` at position `i`.
pub fn matches_at(v: &[char], pat: &[char], i: usize) -> (r: bool)
    requires
        i <= v@.len(),
    ensures
        r == occurs_at(v@, pat@, i as int),
{
    if pat.len() > v.len() - i {
        return false;
    }
    let n: usize = v.len();
    let mut k: usize = 0;
    while k < pat.len()
        invariant
            n == v@.len(),
            i + pat@.len() <= v@.len(),
            k <= pat@.len(),
            forall|j: int| 0 <= j < k ==> v@[i + j] == pat@[j],
        decreases pat@.len() - k,
    {
        if v[i + k] != pat[k] {
            assert(v@.subrange(i as int, i + pat@.len())[k as int] != pat@[k as int]);
            return false;
        }
        k = k + 1;
    }
    assert(v@.subrange(i as int, i + pat@.len()) =~= pat@);
    true
}

/// The first position at or after `from` where `pat` stands in `v`.
pub fn find_from(v: &[char], pat: &[char], from: usize) -> (r: Option<usize>)
    requires
        from <= v@.len(),
    ensures
        match r {
            Some(i) => first_at(v@, pat@, from as int, i as int),
            None => none_from(v@, pat@, from as int),
        },
{
    let n: usize = v.len();
    let mut i: usize = from;
    while i < n
        invariant
            from <= i <= n == v@.len(),
            forall|j: int| from <= j < i ==> !#[trigger] occurs_at(v@, pat@, j),
        decreases n - i,
    {
        if matches_at(v, pat, i) {
            return Some(i);
        }
        i = i + 1;
    }
    if matches_at(v, pat, n) {
        return Some(n);
    }
    None
}

/// Whether `pat` stands somewhere in `s`.
pub fn contains_text(s: &str, pat: &str) -> (r: bool)
    ensures
        r == occurs(s@, pat@),
{
    let v: Vec<char> = chars_of(s);
    let p: Vec<char> = chars_of(pat);
    match find_from(&v, &p, 0) {
        Some(i) => {
            assert(occurs_at(s@, pat@, i as int));
            true
        },
        None => false,
    }
}

/// `s` starts with `pre`.
pub open spec fn has_prefix(s: Seq<char>, pre: Seq<char>) -> bool {
    occurs_at(s, pre, 0)
}

/// Whether `s` starts with `pre`.
pub fn starts_with(s: &str, pre: &str) -> (r: bool)
    ensures
        r == has_prefix(s@, pre@),
{
    let v: Vec<char> = chars_of(s);
    let p: Vec<char> = chars_of(pre);
    matches_at(&v, &p, 0)
}

/// What follows `pre` in `s`, where `s` starts with it.
pub fn after_prefix(s: &str, pre: &str) -> (r: Option<String>)
    ensures
        match r {
            Some(t) => has_prefix(s@, pre@) && t@ == s@.skip(pre@.len() as int),
            None => !has_prefix(s@, pre@),
        },
{
    let v: Vec<char> = chars_of(s);
    let p: Vec<char> = chars_of(pre);
    if matches_at(&v, &p, 0) {
        assert(v@.skip(p@.len() as int) =~= v@.subrange(p@.len() as int, v@.len() as int));
        Some(string_of(&v, p.len(), v.len()))
    } else {
        None
    }
}

// ── Replacing ───────────────────────────────────────────────────────────

/// `s` with every character of `set` replaced by `by`.
pub open spec fn replace_chars(s: Seq<char>, set: Seq<char>, by: Seq<char>) -> Seq<char>
    decreases s.len(),
{
    if s.len() == 0 {
        s
    } else {
        replace_chars(s.drop_last(), set, by) + (if set.contains(s.last()) {
            by
        } else {
            seq![s.last()]
        })
    }
}

/// `s` with every character of `set` replaced by `by`.
pub fn chars_replaced(s: &str, set: &[char], by: &str) -> (r: String)
    ensures
        r@ == replace_chars(s@, set@, by@),
{
    let v: Vec<char> = chars_of(s);
    let mut out: String = String::new();
    let mut i: usize = 0;
    while i < v.len()
        invariant
            i <= v@.len(),
            out@ == replace_chars(v@.take(i as int), set@, by@),
        decreases v@.len() - i,
    {
        if member(v[i], set) {
            out.append(by);
        } else {
            out.push(v[i]);
        }
        i = i + 1;
        assert(v@.take(i as int).drop_last() =~= v@.take(i - 1));
        assert(out@ =~= replace_chars(v@.take(i as int), set@, by@));
    }
    assert(v@.take(i as int) =~= v@);
    out
}

/// `s` with every occurrence of `pat`, taken from the left without overlap,
/// replaced by `by`.
pub open spec fn replace_text(s: Seq<char>, pat: Seq<char>, by: Seq<char>) -> Seq<char>
    decreases s.len(),
{
    if s.len() == 0 || pat.len() == 0 {
        s
    } else if has_prefix(s, pat) {
        by + replace_text(s.skip(pat.len() as int), pat, by)
    } else {
        seq![s[0]] + replace_text(s.drop_first(), pat, by)
    }
}

/// `s` with every occurrence of `pat` replaced by `by`.
pub fn text_replaced(s: &str, pat: &str, by: &str) -> (r: String)
    requires
        pat@.len() > 0,
    ensures
        r@ == replace_text(s@, pat@, by@),
{
    let v: Vec<char> = chars_of(s);
    let p: Vec<char> = chars_of(pat);
    let mut out: String = String::new();
    let mut i: usize = 0;
    assert(v@.skip(0) =~= v@);
    assert(out@ + replace_text(v@, pat@, by@) =~= replace_text(s@, pat@, by@));
    while i < v.len()
        invariant
            i <= v@.len(),
            v@ == s@,
            p@ == pat@,
            pat@.len() > 0,
            out@ + replace_text(v@.skip(i as int), pat@, by@) == replace_text(s@, pat@, by@),
        decreases v@.len() - i,
    {
        let ghost rest = v@.skip(i as int);
        let ghost before = out@;
        assert(occurs_at(v@, p@, i as int) == has_prefix(rest, pat@)) by {
            if i + p@.len() <= v@.len() {
                assert(v@.subrange(i as int, i + p@.len()) =~= rest.subrange(0, p@.len() as int));
            }
        }
        if matches_at(&v, &p, i) {
            out.append(by);
            i = i + p.len();
            assert(rest.skip(pat@.len() as int) =~= v@.skip(i as int));
            assert(before + (by@ + replace_text(v@.skip(i as int), pat@, by@)) =~= out@
                + replace_text(v@.skip(i as int), pat@, by@));
        } else {
            out.push(v[i]);
            i = i + 1;
            assert(rest.drop_first() =~= v@.skip(i as int));
            assert(before + (seq![rest[0]] + replace_text(v@.skip(i as int), pat@, by@)) =~= out@
                + replace_text(v@.skip(i as int), pat@, by@));
        }
    }
    assert(v@.skip(i as int).len() == 0);
    assert(out@ + replace_text(v@.skip(i as int), pat@, by@) =~= out@);
    out
}

// ── Splitting and joining ───────────────────────────────────────────────

/// The pieces of `s` between the occurrences of `c`.
pub open spec fn split(s: Seq<char>, c: char) -> Seq<Seq<char>>
    decreases s.len(),
{
    if s.len() == 0 {
        seq![s]
    } else {
        let front = split(s.drop_last(), c);
        if s.last() == c {
            front.push(Seq::empty())
        } else {
            front.drop_last().push(front.last().push(s.last()))
        }
    }
}

proof fn lemma_split_nonempty(s: Seq<char>, c: char)
    ensures
        split(s, c).len() >= 1,
    decreases s.len(),
{
    if s.len() > 0 {
        lemma_split_nonempty(s.drop_last(), c);
    }
}

/// The first piece ends at the first `c`.
pub proof fn lemma_split_first(s: Seq<char>, c: char, i: int)
    requires
        first_char(s, c, i) || (i == s.len() && !s.contains(c)),
    ensures
        split(s, c).len() >= 1,
        split(s, c)[0] == s.take(i),
        i == s.len() ==> split(s, c).len() == 1,
        i < s.len() ==> split(s, c).len() >= 2,
    decreases s.len(),
{
    lemma_split_nonempty(s, c);
    if s.len() > 0 {
        let t = s.drop_last();
        lemma_split_nonempty(t, c);
        if i == s.len() {
            assert(!t.contains(c)) by {
                if t.contains(c) {
                    let j = choose|j: int| 0 <= j < t.len() && t[j] == c;
                    assert(s[j] == c);
                }
            }
            assert(s.last() != c) by {
                assert(s.contains(s.last()));
            }
            lemma_split_first(t, c, i - 1);
            assert(t.take(i - 1).push(s.last()) =~= s.take(i));
        } else if i == s.len() - 1 {
            assert(!t.contains(c)) by {
                if t.contains(c) {
                    let j = choose|j: int| 0 <= j < t.len() && t[j] == c;
                    assert(s[j] == c);
                }
            }
            lemma_split_first(t, c, i);
            assert(t.take(i) =~= s.take(i));
        } else {
            lemma_split_first(t, c, i);
            assert(t.take(i) =~= s.take(i));
        }
    } else {
        assert(s.take(i) =~= s);
    }
}

/// The pieces of `s` between the occurrences of `c`.
pub fn split_at_char(s: &str, c: char) -> (r: Vec<String>)
    ensures
        texts(r@) == split(s@, c),
        r@.len() >= 1,
{
    let v: Vec<char> = chars_of(s);
    let mut out: Vec<String> = Vec::new();
    let mut piece: String = String::new();
    let mut i: usize = 0;
    assert(piece@ =~= v@.take(0));
    assert(texts(out@).push(piece@) =~= split(v@.take(0), c));
    while i < v.len()
        invariant
            i <= v@.len(),
            texts(out@).push(piece@) == split(v@.take(i as int), c),
        decreases v@.len() - i,
    {
        let ghost front = split(v@.take(i as int), c);
        assert(v@.take(i + 1).drop_last() =~= v@.take(i as int));
        assert(front.drop_last() =~= texts(out@));
        if v[i] == c {
            let ghost before = out@;
            out.push(piece);
            piece = String::new();
            assert(texts(out@) =~= texts(before).push(front.last()));
            assert(texts(out@).push(piece@) =~= front.push(Seq::empty()));
        } else {
            piece.push(v[i]);
        }
        i = i + 1;
    }
    assert(v@.take(i as int) =~= v@);
    let ghost before = out@;
    let ghost last = piece@;
    out.push(piece);
    assert(texts(out@) =~= texts(before).push(last));
    out
}

/// Whether `c` stands in `s`.
pub fn has_char(s: &str, c: char) -> (r: bool)
    ensures
        r == s@.contains(c),
{
    match cut_at_char(s, c) {
        Some((a, _)) => {
            assert(s@[a@.len() as int] == c);
            true
        },
        None => false,
    }
}

/// The position of the first `c` in `s`, if there is one.
pub open spec fn first_char(s: Seq<char>, c: char, i: int) -> bool {
    &&& 0 <= i < s.len()
    &&& s[i] == c
    &&& forall|j: int| 0 <= j < i ==> s[j] != c
}

/// `s` cut at its first `c`, which belongs to neither half.
pub fn cut_at_char(s: &str, c: char) -> (r: Option<(String, String)>)
    ensures
        match r {
            Some((a, b)) => first_char(s@, c, a@.len() as int) && a@ == s@.take(a@.len() as int)
                && b@ == s@.skip(a@.len() as int + 1),
            None => !s@.contains(c),
        },
{
    let v: Vec<char> = chars_of(s);
    let n: usize = v.len();
    let mut i: usize = 0;
    while i < n
        invariant
            i <= n == v@.len(),
            v@ == s@,
            forall|j: int| 0 <= j < i ==> v@[j] != c,
        decreases n - i,
    {
        if v[i] == c {
            assert(v@.subrange(0, i as int) =~= s@.take(i as int));
            assert(v@.subrange(i + 1, n as int) =~= s@.skip(i + 1));
            return Some((string_of(&v, 0, i), string_of(&v, i + 1, n)));
        }
        i = i + 1;
    }
    None
}

// ── Numbers ─────────────────────────────────────────────────────────────

/// The character of a decimal digit.
pub open spec fn digit_char(d: nat) -> char {
    (48 + d) as char
}

/// A number in decimal notation, without leading zeros.
pub open spec fn decimal(n: nat) -> Seq<char>
    decreases n,
{
    if n < 10 {
        seq![digit_char(n)]
    } else {
        decimal(n / 10).push(digit_char(n % 10))
    }
}

/// An integer in decimal notation, with `-` in front where it is negative.
pub open spec fn integer(i: int) -> Seq<char> {
    if i < 0 {
        seq!['-'] + decimal((-i) as nat)
    } else {
        decimal(i as nat)
    }
}

/// `s` with zeros in front, up to `width` characters.
pub open spec fn zero_pad(s: Seq<char>, width: int) -> Seq<char> {
    if s.len() >= width {
        s
    } else {
        Seq::new((width - s.len()) as nat, |i: int| '0') + s
    }
}

/// An integer of at least `width` characters, zeros after the sign.
pub open spec fn padded(i: int, width: int) -> Seq<char> {
    if i < 0 {
        seq!['-'] + zero_pad(decimal((-i) as nat), width - 1)
    } else {
        zero_pad(decimal(i as nat), width)
    }
}

/// A number in decimal notation.
pub fn decimal_text(n: u64) -> (r: String)
    ensures
        r@ == decimal(n as nat),
    decreases n,
{
    let d: u8 = (n % 10) as u8;
    let c: char = (48u8 + d) as char;
    let mut out: String = if n < 10 {
        String::new()
    } else {
        decimal_text(n / 10)
    };
    out.push(c);
    assert(out@ =~= decimal(n as nat));
    out
}

fn magnitude(i: i64) -> (r: u64)
    ensures
        r == (if i < 0 {
            -(i as int)
        } else {
            i as int
        }),
{
    if i >= 0 {
        i as u64
    } else if i == i64::MIN {
        9223372036854775808
    } else {
        (-i) as u64
    }
}

/// An integer in decimal notation.
pub fn integer_text(i: i64) -> (r: String)
    ensures
        r@ == integer(i as int),
{
    let digits: String = decimal_text(magnitude(i));
    if i < 0 {
        let mut out: String = String::new();
        out.push('-');
        out.append(digits.as_str());
        assert(out@ =~= integer(i as int));
        out
    } else {
        digits
    }
}

/// An integer of at least `width` characters, zeros after the sign.
pub fn padded_text(i: i64, width: usize) -> (r: String)
    requires
        width >= 1,
    ensures
        r@ == padded(i as int, width as int),
{
    let digits: String = decimal_text(magnitude(i));
    let n: usize = digits.as_str().unicode_len();
    let mut out: String = String::new();
    let mut w: usize = width;
    if i < 0 {
        out.push('-');
        w = w - 1;
    }
    let ghost sign = out@;
    let mut k: usize = n;
    assert(out@ =~= sign + Seq::new(0, |i: int| '0'));
    while k < w
        invariant
            n <= k,
            k <= w || k == n,
            out@ == sign + Seq::new((k - n) as nat, |i: int| '0'),
        decreases w - k,
    {
        out.push('0');
        k = k + 1;
        assert(out@ =~= sign + Seq::new((k - n) as nat, |i: int| '0'));
    }
    out.append(digits.as_str());
    assert(out@ =~= padded(i as int, width as int));
    out
}

/// Every character is a decimal digit.
pub open spec fn all_digits(s: Seq<char>) -> bool {
    forall|i: int| 0 <= i < s.len() ==> is_digit(#[trigger] s[i])
}

/// The number that a sequence of decimal digits denotes.
pub open spec fn digits_value(s: Seq<char>) -> nat
    decreases s.len(),
{
    if s.len() == 0 {
        0
    } else {
        digits_value(s.drop_last()) * 10 + (s.last() as u32 - 48) as nat
    }
}

/// The number that `s` denotes: digits, with an optional `+` in front.
pub open spec fn parse_nat(s: Seq<char>) -> Option<nat> {
    let t = if s.len() > 0 && s[0] == '+' {
        s.drop_first()
    } else {
        s
    };
    if t.len() > 0 && all_digits(t) {
        Some(digits_value(t))
    } else {
        None
    }
}

/// The number that `s` denotes, if it is at most `max`.
pub open spec fn parse_upto(s: Seq<char>, max: int) -> Option<nat> {
    match parse_nat(s) {
        Some(n) => if n <= max {
            Some(n)
        } else {
            None
        },
        None => None,
    }
}

/// The integer that `s` denotes: digits with an optional sign in front.
pub open spec fn parse_int(s: Seq<char>) -> Option<int> {
    if s.len() > 0 && s[0] == '-' {
        let t = s.drop_first();
        if t.len() > 0 && all_digits(t) {
            Some(-(digits_value(t) as int))
        } else {
            None
        }
    } else {
        match parse_nat(s) {
            Some(n) => Some(n as int),
            None => None,
        }
    }
}

/// The 64-bit integer that `s` denotes, if it denotes one.
pub open spec fn parse_i64(s: Seq<char>) -> Option<i64> {
    match parse_int(s) {
        Some(n) => if i64::MIN <= n <= i64::MAX {
            Some(n as i64)
        } else {
            None
        },
        None => None,
    }
}

proof fn lemma_digits_grow(s: Seq<char>, i: int)
    requires
        all_digits(s),
        0 <= i <= s.len(),
    ensures
        digits_value(s.take(i)) <= digits_value(s),
    decreases s.len() - i,
{
    if i < s.len() {
        lemma_digits_grow(s, i + 1);
        assert(s.take(i + 1).drop_last() =~= s.take(i));
        assert(s.take(i + 1).last() == s[i]);
        assert(is_digit(s[i]));
    } else {
        assert(s.take(i) =~= s);
    }
}

/// Reading back a number written in decimal notation gives the number.
pub proof fn decimal_reads_back(n: nat)
    ensures
        decimal(n).len() >= 1,
        all_digits(decimal(n)),
        digits_value(decimal(n)) == n,
        parse_nat(decimal(n)) == Some(n),
    decreases n,
{
    if n < 10 {
        assert(decimal(n).drop_last() =~= Seq::<char>::empty());
        assert(digits_value(decimal(n).drop_last()) == 0);
    } else {
        decimal_reads_back(n / 10);
        assert(decimal(n).drop_last() =~= decimal(n / 10));
    }
    assert(decimal(n)[0] != '+') by {
        assert(is_digit(decimal(n)[0]));
    }
}

/// Reading back an integer written in decimal notation gives the integer.
pub proof fn integer_reads_back(i: int)
    ensures
        parse_int(integer(i)) == Some(i),
{
    if i < 0 {
        decimal_reads_back((-i) as nat);
        assert(integer(i).drop_first() =~= decimal((-i) as nat));
    } else {
        decimal_reads_back(i as nat);
        assert(is_digit(decimal(i as nat)[0]));
    }
}

fn digit_of(c: char) -> (r: Option<u32>)
    ensures
        match r {
            Some(d) => is_digit(c) && d == c as u32 - 48 && d <= 9,
            None => !is_digit(c),
        },
{
    let n: u32 = c as u32;
    if 48 <= n && n <= 57 {
        Some(n - 48)
    } else {
        None
    }
}

/// The value of the digits `v[from..]`, if they are digits and it is at most `max`.
fn digits_from(v: &[char], from: usize, max: u64) -> (r: Option<u64>)
    requires
        from <= v@.len(),
    ensures
        match r {
            Some(n) => from < v@.len() && all_digits(v@.skip(from as int)) && n == digits_value(
                v@.skip(from as int),
            ) && n <= max,
            None => from == v@.len() || !all_digits(v@.skip(from as int)) || digits_value(
                v@.skip(from as int),
            ) > max,
        },
{
    let ghost t = v@.skip(from as int);
    let n: usize = v.len();
    if from == n {
        return None;
    }
    let mut acc: u64 = 0;
    let mut i: usize = from;
    while i < n
        invariant
            from <= i <= n == v@.len(),
            t == v@.skip(from as int),
            acc <= max,
            acc == digits_value(t.take(i - from)),
            forall|j: int| 0 <= j < i - from ==> is_digit(#[trigger] t[j]),
        decreases n - i,
    {
        assert(t[i - from] == v@[i as int]);
        let d: u32 = match digit_of(v[i]) {
            Some(d) => d,
            None => {
                assert(!is_digit(t[i - from]));
                return None;
            },
        };
        let next: u128 = acc as u128 * 10 + d as u128;
        proof {
            assert(t.take(i - from + 1).drop_last() =~= t.take(i - from));
            assert(next == digits_value(t.take(i - from + 1)));
            if all_digits(t) {
                lemma_digits_grow(t, i - from + 1);
            }
        }
        if next > max as u128 {
            return None;
        }
        acc = next as u64;
        assert(is_digit(t[i - from]));
        i = i + 1;
    }
    assert(t.take(i - from) =~= t);
    Some(acc)
}

/// The number that `s` denotes, if it is at most `max`.
pub fn parse_number(s: &str, max: u64) -> (r: Option<u64>)
    ensures
        match r {
            Some(n) => parse_upto(s@, max as int) == Some(n as nat),
            None => parse_upto(s@, max as int) is None,
        },
{
    let v: Vec<char> = chars_of(s);
    let from: usize = if v.len() > 0 && v[0] == '+' {
        1
    } else {
        0
    };
    assert(v@.skip(0) =~= v@);
    assert(v@.len() > 0 ==> v@.skip(1) =~= v@.drop_first());
    digits_from(&v, from, max)
}

/// The 64-bit integer that `s` denotes, if it denotes one.
pub fn parse_signed(s: &str) -> (r: Option<i64>)
    ensures
        r == parse_i64(s@),
{
    let v: Vec<char> = chars_of(s);
    assert(v@.skip(0) =~= v@);
    assert(v@.len() > 0 ==> v@.skip(1) =~= v@.drop_first());
    if v.len() > 0 && v[0] == '-' {
        match digits_from(&v, 1, 9223372036854775808) {
            Some(n) => if n == 9223372036854775808 {
                Some(i64::MIN)
            } else {
                Some(-(n as i64))
            },
            None => None,
        }
    } else {
        match parse_number(s, 9223372036854775807) {
            Some(n) => Some(n as i64),
            None => None,
        }
    }
}

/// The texts of `parts` with `sep` between neighbours.
pub open spec fn join(parts: Seq<Seq<char>>, sep: Seq<char>) -> Seq<char>
    decreases parts.len(),
{
    if parts.len() == 0 {
        Seq::empty()
    } else if parts.len() == 1 {
        parts[0]
    } else {
        join(parts.drop_last(), sep) + sep + parts.last()
    }
}

/// The texts of `parts[from..]` with `sep` between neighbours.
pub fn joined_from(parts: &[String], from: usize, sep: &str) -> (r: String)
    requires
        from <= parts@.len(),
    ensures
        r@ == join(texts(parts@).skip(from as int), sep@),
{
    let ghost all = texts(parts@).skip(from as int);
    let mut out: String = String::new();
    let mut i: usize = from;
    assert(all.take(0).len() == 0);
    while i < parts.len()
        invariant
            from <= i <= parts@.len(),
            all == texts(parts@).skip(from as int),
            out@ == join(all.take(i - from), sep@),
        decreases parts@.len() - i,
    {
        assert(all.take(i - from + 1).drop_last() =~= all.take(i - from));
        if i > from {
            out.append(sep);
        }
        out.append(parts[i].as_str());
        assert(out@ =~= join(all.take(i - from + 1), sep@));
        i = i + 1;
    }
    assert(all.take(i - from) =~= all);
    out
}

/// The texts of `parts` with `sep` between neighbours.
pub fn joined(parts: &[String], sep: &str) -> (r: String)
    ensures
        r@ == join(texts(parts@), sep@),
{
    assert(texts(parts@).skip(0) =~= texts(parts@));
    joined_from(parts, 0, sep)
}

// ── Order ───────────────────────────────────────────────────────────────

/// `a` comes before `b` in dictionary order, or is the same.
pub open spec fn in_order(a: Seq<char>, b: Seq<char>) -> bool
    decreases a.len(),
{
    if a.len() == 0 {
        true
    } else if b.len() == 0 {
        false
    } else if a[0] == b[0] {
        in_order(a.drop_first(), b.drop_first())
    } else {
        a[0] < b[0]
    }
}

/// `a` comes before `b` in dictionary order.
pub open spec fn before(a: Seq<char>, b: Seq<char>) -> bool {
    in_order(a, b) && a != b
}

pub proof fn lemma_in_order_total(a: Seq<char>, b: Seq<char>)
    ensures
        in_order(a, b) || in_order(b, a),
        in_order(a, a),
        in_order(a, b) && in_order(b, a) ==> a == b,
    decreases a.len(),
{
    if a.len() > 0 {
        lemma_in_order_total(a.drop_first(), a.drop_first());
        if b.len() > 0 {
            lemma_in_order_total(a.drop_first(), b.drop_first());
            if a[0] == b[0] && a.drop_first() == b.drop_first() {
                assert(a =~= seq![a[0]] + a.drop_first());
                assert(b =~= seq![b[0]] + b.drop_first());
            }
        }
    } else if b.len() == 0 {
        assert(a =~= b);
    }
}

pub proof fn lemma_in_order_transitive(a: Seq<char>, b: Seq<char>, c: Seq<char>)
    requires
        in_order(a, b),
        in_order(b, c),
    ensures
        in_order(a, c),
    decreases a.len(),
{
    if a.len() > 0 && b.len() > 0 && c.len() > 0 && a[0] == b[0] && b[0] == c[0] {
        lemma_in_order_transitive(a.drop_first(), b.drop_first(), c.drop_first());
    }
}

/// Whether `a` comes before `b` in dictionary order, or is the same.
pub fn ordered(a: &str, b: &str) -> (r: bool)
    ensures
        r == in_order(a@, b@),
{
    let x: Vec<char> = chars_of(a);
    let y: Vec<char> = chars_of(b);
    let n: usize = x.len();
    let m: usize = y.len();
    let mut i: usize = 0;
    assert(x@.skip(0) =~= a@);
    assert(y@.skip(0) =~= b@);
    while i < n && i < m
        invariant
            i <= n == x@.len(),
            i <= m == y@.len(),
            in_order(a@, b@) == in_order(x@.skip(i as int), y@.skip(i as int)),
        decreases n - i,
    {
        assert(x@.skip(i as int)[0] == x@[i as int]);
        assert(y@.skip(i as int)[0] == y@[i as int]);
        if x[i] != y[i] {
            return less(x[i], y[i]);
        }
        assert(x@.skip(i as int).drop_first() =~= x@.skip(i + 1));
        assert(y@.skip(i as int).drop_first() =~= y@.skip(i + 1));
        i = i + 1;
    }
    i == n
}

fn less(a: char, b: char) -> (r: bool)
    ensures
        r == (a < b),
{
    let m: u32 = a as u32;
    let n: u32 = b as u32;
    m < n
}

/// Every text comes after the ones before it, or is the same.
pub open spec fn sorted(v: Seq<Seq<char>>) -> bool {
    forall|i: int, j: int| 0 <= i < j < v.len() ==> in_order(#[trigger] v[i], #[trigger] v[j])
}

/// The same texts in dictionary order.
pub open spec fn sorted_version(v: Seq<Seq<char>>, all: Seq<Seq<char>>) -> bool {
    sorted(v) && v.to_multiset() == all.to_multiset()
}

/// The texts of a list in dictionary order.
pub open spec fn in_dictionary_order(all: Seq<Seq<char>>) -> Seq<Seq<char>> {
    choose|v: Seq<Seq<char>>| sorted_version(v, all)
}

/// A sorted list is fixed by the texts in it: two lists in dictionary order that
/// hold the same texts, each as often, are the same list.
pub proof fn sorted_list_is_fixed_by_its_texts(v: Seq<Seq<char>>, w: Seq<Seq<char>>)
    requires
        sorted(v),
        sorted(w),
        v.to_multiset() == w.to_multiset(),
    ensures
        v == w,
{
    let leq = |a: Seq<char>, b: Seq<char>| in_order(a, b);
    assert forall|a: Seq<char>, b: Seq<char>| #[trigger] leq(a, b) || leq(b, a) by {
        lemma_in_order_total(a, b);
    }
    assert forall|a: Seq<char>| #[trigger] leq(a, a) by {
        lemma_in_order_total(a, a);
    }
    assert forall|a: Seq<char>, b: Seq<char>| #[trigger] leq(a, b) && #[trigger] leq(
        b,
        a,
    ) implies a == b by {
        lemma_in_order_total(a, b);
    }
    assert forall|a: Seq<char>, b: Seq<char>, c: Seq<char>| #[trigger] leq(a, b) && #[trigger] leq(
        b,
        c,
    ) implies leq(a, c) by {
        lemma_in_order_transitive(a, b, c);
    }
    assert forall|i: int, j: int| 0 <= i < j < v.len() implies #[trigger] leq(v[i], v[j]) by {
        assert(in_order(v[i], v[j]));
    }
    assert forall|i: int, j: int| 0 <= i < j < w.len() implies #[trigger] leq(w[i], w[j]) by {
        assert(in_order(w[i], w[j]));
    }
    vstd::seq_lib::lemma_sorted_unique(v, w, leq);
}

/// Where `x` goes in a sorted list, behind the texts that are not after it.
pub fn sorted_position(v: &Vec<String>, x: &str) -> (r: usize)
    requires
        sorted(texts(v@)),
    ensures
        r <= v@.len(),
        forall|i: int| 0 <= i < r ==> in_order((#[trigger] v@[i])@, x@),
        forall|i: int| r <= i < v@.len() ==> in_order(x@, (#[trigger] v@[i])@),
{
    let mut r: usize = v.len();
    while r > 0
        invariant
            r <= v@.len(),
            sorted(texts(v@)),
            forall|i: int| r <= i < v@.len() ==> in_order(x@, (#[trigger] v@[i])@),
        decreases r,
    {
        if ordered(v[r - 1].as_str(), x) {
            proof {
                assert forall|i: int| 0 <= i < r implies in_order((#[trigger] v@[i])@, x@) by {
                    let t = texts(v@);
                    if i < r - 1 {
                        assert(in_order(t[i], t[r - 1]));
                        lemma_in_order_transitive(t[i], t[r - 1], x@);
                    }
                }
            }
            return r;
        }
        proof {
            lemma_in_order_total(v@[r - 1]@, x@);
        }
        r = r - 1;
    }
    r
}

/// The same texts in dictionary order.
pub fn sorted_texts(v: &Vec<String>) -> (r: Vec<String>)
    ensures
        texts(r@) == in_dictionary_order(texts(v@)),
        sorted_version(texts(r@), texts(v@)),
{
    let mut out: Vec<String> = Vec::new();
    let mut i: usize = 0;
    assert(texts(out@) =~= texts(v@).take(0));
    while i < v.len()
        invariant
            i <= v@.len(),
            sorted(texts(out@)),
            texts(out@).to_multiset() == texts(v@).take(i as int).to_multiset(),
        decreases v@.len() - i,
    {
        let at: usize = sorted_position(&out, v[i].as_str());
        let ghost before = texts(out@);
        let ghost x = v@[i as int]@;
        out.insert(at, v[i].clone());
        proof {
            let after = texts(out@);
            assert(after =~= before.insert(at as int, x));
            before.insert_ensures(at as int, x);
            broadcast use vstd::seq_lib::group_to_multiset_ensures;

            assert(after.to_multiset() =~= before.to_multiset().insert(x));
            let t = texts(v@);
            assert(t.take(i + 1) =~= t.take(i as int).push(x));
            assert forall|a: int, b: int| 0 <= a < b < after.len() implies in_order(
                #[trigger] after[a],
                #[trigger] after[b],
            ) by {
                if b < at {
                    assert(in_order(before[a], before[b]));
                } else if a < at && b == at {
                    assert(in_order(before[a], x));
                } else if a < at {
                    assert(in_order(before[a], before[b - 1]));
                } else if a == at {
                    assert(in_order(x, before[b - 1]));
                } else {
                    assert(in_order(before[a - 1], before[b - 1]));
                }
            }
        }
        i = i + 1;
    }
    assert(texts(v@).take(i as int) =~= texts(v@));
    proof {
        assert(sorted_version(texts(out@), texts(v@)));
        sorted_list_is_fixed_by_its_texts(texts(out@), in_dictionary_order(texts(v@)));
    }
    out
}

/// A copy of a list of strings.
pub fn copy_strings(v: &Vec<String>) -> (r: Vec<String>)
    ensures
        r@ == v@,
{
    let mut out: Vec<String> = Vec::new();
    let mut i: usize = 0;
    while i < v.len()
        invariant
            i <= v@.len(),
            out@ == v@.take(i as int),
        decreases v@.len() - i,
    {
        out.push(v[i].clone());
        i = i + 1;
        assert(v@.take(i as int) =~= v@.take(i - 1).push(v@[i - 1]));
    }
    assert(v@.take(i as int) =~= v@);
    out
}

// ── Laws ────────────────────────────────────────────────────────────────

proof fn lemma_trim_end_keeps_ink(s: Seq<char>, i: int)
    requires
        0 <= i < s.len(),
        !is_white(s[i]),
    ensures
        trim_end(s).len() > i,
    decreases s.len(),
{
    if is_white(s.last()) {
        lemma_trim_end_keeps_ink(s.drop_last(), i);
    }
}

/// Trimming never takes off a character that is no white space.
pub proof fn lemma_trim_keeps_ink(s: Seq<char>, i: int)
    requires
        0 <= i < s.len(),
        !is_white(s[i]),
    ensures
        trim(s).len() > 0,
    decreases s.len(),
{
    if is_white(s[0]) {
        assert(s.drop_first()[i - 1] == s[i]);
        lemma_trim_keeps_ink(s.drop_first(), i - 1);
    } else {
        lemma_trim_end_keeps_ink(s, i);
    }
}

proof fn lemma_all_white_end(s: Seq<char>)
    requires
        forall|i: int| 0 <= i < s.len() ==> is_white(#[trigger] s[i]),
    ensures
        trim_end(s).len() == 0,
    decreases s.len(),
{
    if s.len() > 0 {
        assert(is_white(s[s.len() - 1]));
        let t = s.drop_last();
        assert forall|i: int| 0 <= i < t.len() implies is_white(#[trigger] t[i]) by {
            assert(t[i] == s[i]);
        }
        lemma_all_white_end(t);
    }
}

proof fn lemma_all_white(s: Seq<char>)
    requires
        forall|i: int| 0 <= i < s.len() ==> is_white(#[trigger] s[i]),
    ensures
        trim(s).len() == 0,
    decreases s.len(),
{
    if s.len() > 0 {
        assert(is_white(s[0]));
        let t = s.drop_first();
        assert forall|i: int| 0 <= i < t.len() implies is_white(#[trigger] t[i]) by {
            assert(t[i] == s[i + 1]);
        }
        lemma_all_white(t);
    }
}

/// A text that is not empty once trimmed has a character that is no white space.
pub proof fn lemma_ink(s: Seq<char>)
    requires
        trim(s).len() > 0,
    ensures
        exists|i: int| 0 <= i < s.len() && !is_white(#[trigger] s[i]),
{
    if forall|i: int| 0 <= i < s.len() ==> is_white(#[trigger] s[i]) {
        lemma_all_white(s);
    }
}

/// A text that neither starts nor ends with white space is left as it is.
pub proof fn lemma_trim_same(s: Seq<char>)
    requires
        s.len() > 0,
        !is_white(s[0]),
        !is_white(s.last()),
    ensures
        trim(s) == s,
        trim_start(s) == s,
        trim_end(s) == s,
{
}

proof fn lemma_trim_start_parts(s: Seq<char>) -> (k: int)
    ensures
        0 <= k <= s.len(),
        trim_start(s) == s.skip(k),
        forall|i: int| 0 <= i < k ==> is_white(#[trigger] s[i]),
        k < s.len() ==> !is_white(s[k]),
    decreases s.len(),
{
    if s.len() > 0 && is_white(s[0]) {
        let t = s.drop_first();
        let j = lemma_trim_start_parts(t);
        assert forall|i: int| 0 <= i < j + 1 implies is_white(#[trigger] s[i]) by {
            if i > 0 {
                assert(s[i] == t[i - 1]);
            }
        }
        assert(t.skip(j) =~= s.skip(j + 1));
        j + 1
    } else {
        assert(s.skip(0) =~= s);
        0
    }
}

proof fn lemma_trim_end_parts(s: Seq<char>) -> (k: int)
    ensures
        0 <= k <= s.len(),
        trim_end(s) == s.take(k),
        forall|i: int| k <= i < s.len() ==> is_white(#[trigger] s[i]),
        k > 0 ==> !is_white(s[k - 1]),
    decreases s.len(),
{
    if s.len() > 0 && is_white(s.last()) {
        let t = s.drop_last();
        let k = lemma_trim_end_parts(t);
        assert forall|i: int| k <= i < s.len() implies is_white(#[trigger] s[i]) by {
            if i < t.len() {
                assert(s[i] == t[i]);
            }
        }
        assert(t.take(k) =~= s.take(k));
        k
    } else {
        assert(s.take(s.len() as int) =~= s);
        s.len() as int
    }
}

/// Trimming takes the white space in front of a text and behind it, and nothing
/// else.
pub proof fn trimming_takes_white_space_only(s: Seq<char>)
    ensures
        exists|i: int, j: int|
            0 <= i <= j <= s.len() && trim(s) == #[trigger] s.subrange(i, j) && (forall|k: int|
                0 <= k < i || j <= k < s.len() ==> is_white(#[trigger] s[k])),
        trim(s).len() > 0 ==> !is_white(trim(s)[0]) && !is_white(trim(s).last()),
{
    let i = lemma_trim_start_parts(s);
    let t = s.skip(i);
    let n = lemma_trim_end_parts(t);
    assert(t.take(n) =~= s.subrange(i, i + n));
    assert forall|k: int| 0 <= k < i || i + n <= k < s.len() implies is_white(#[trigger] s[k]) by {
        if k >= i {
            assert(s[k] == t[k - i]);
        }
    }
    if n > 0 {
        assert(trim(s)[0] == s[i]);
        assert(trim(s).last() == t[n - 1]);
    }
}

/// Splitting a text at a character and joining the pieces with it gives the text
/// back, and no piece holds the character.
pub proof fn split_pieces_join_to_the_text(s: Seq<char>, c: char)
    ensures
        split(s, c).len() >= 1,
        join(split(s, c), seq![c]) == s,
        forall|i: int| 0 <= i < split(s, c).len() ==> !(#[trigger] split(s, c)[i]).contains(c),
    decreases s.len(),
{
    let v = split(s, c);
    if s.len() == 0 {
        assert(v =~= seq![s]);
    } else {
        let t = s.drop_last();
        split_pieces_join_to_the_text(t, c);
        let front = split(t, c);
        assert(s =~= t.push(s.last()));
        if s.last() == c {
            assert(v.drop_last() =~= front);
            assert(join(v, seq![c]) =~= s);
        } else {
            let piece = front.last();
            assert(!front[front.len() - 1].contains(c));
            assert(v.last() =~= piece.push(s.last()));
            assert(v.drop_last() =~= front.drop_last());
            if v.len() > 1 {
                assert(join(v, seq![c]) =~= join(front, seq![c]).push(s.last()));
            }
            assert(join(v, seq![c]) =~= s);
            assert forall|i: int| 0 <= i < v.len() implies !(#[trigger] v[i]).contains(c) by {
                if i < front.len() - 1 {
                    assert(v[i] == front[i]);
                } else {
                    let w = piece.push(s.last());
                    if w.contains(c) {
                        let k = choose|k: int| 0 <= k < w.len() && w[k] == c;
                        assert(piece[k] == c);
                    }
                }
            }
        }
    }
}

/// A number is written in base ten, its last digit last.
pub proof fn decimals_are_base_ten(n: nat, d: nat)
    requires
        d < 10,
    ensures
        decimal(0) == "0"@,
        decimal(1) == "1"@,
        decimal(2) == "2"@,
        decimal(3) == "3"@,
        decimal(4) == "4"@,
        decimal(5) == "5"@,
        decimal(6) == "6"@,
        decimal(7) == "7"@,
        decimal(8) == "8"@,
        decimal(9) == "9"@,
        n > 0 ==> decimal(n * 10 + d) == decimal(n) + decimal(d),
{
    reveal_strlit("0");
    reveal_strlit("1");
    reveal_strlit("2");
    reveal_strlit("3");
    reveal_strlit("4");
    reveal_strlit("5");
    reveal_strlit("6");
    reveal_strlit("7");
    reveal_strlit("8");
    reveal_strlit("9");
    assert(decimal(0) =~= "0"@);
    assert(decimal(1) =~= "1"@);
    assert(decimal(2) =~= "2"@);
    assert(decimal(3) =~= "3"@);
    assert(decimal(4) =~= "4"@);
    assert(decimal(5) =~= "5"@);
    assert(decimal(6) =~= "6"@);
    assert(decimal(7) =~= "7"@);
    assert(decimal(8) =~= "8"@);
    assert(decimal(9) =~= "9"@);
    if n > 0 {
        let m = n * 10 + d;
        assert(m / 10 == n && m % 10 == d);
        assert(decimal(m) =~= decimal(n) + decimal(d));
    }
}

/// Replacing a pattern leaves a text without it alone, and takes the first place
/// where it stands.
pub proof fn replacing_takes_the_pattern(a: Seq<char>, rest: Seq<char>, pat: Seq<char>, by: Seq<char>)
    requires
        pat.len() > 0,
        forall|i: int| 0 <= i < a.len() ==> !#[trigger] occurs_at(a + pat + rest, pat, i),
    ensures
        replace_text(a + pat + rest, pat, by) == a + by + replace_text(rest, pat, by),
    decreases a.len(),
{
    let s = a + pat + rest;
    if a.len() == 0 {
        assert(s.subrange(0, pat.len() as int) =~= pat);
        assert(s.skip(pat.len() as int) =~= rest);
        assert(replace_text(s, pat, by) =~= a + by + replace_text(rest, pat, by));
    } else {
        assert(!occurs_at(s, pat, 0));
        let b = a.drop_first();
        let t = b + pat + rest;
        assert(s.drop_first() =~= t);
        assert forall|i: int| 0 <= i < b.len() implies !#[trigger] occurs_at(t, pat, i) by {
            if occurs_at(t, pat, i) {
                assert(s.subrange(i + 1, i + 1 + pat.len()) =~= t.subrange(i, i + pat.len()));
                assert(occurs_at(s, pat, i + 1));
            }
        }
        replacing_takes_the_pattern(b, rest, pat, by);
        assert(replace_text(s, pat, by) =~= a + by + replace_text(rest, pat, by));
    }
}

/// A text in which the pattern does not stand is left alone.
pub proof fn replacing_leaves_the_rest(s: Seq<char>, pat: Seq<char>, by: Seq<char>)
    requires
        !occurs(s, pat),
    ensures
        replace_text(s, pat, by) == s,
    decreases s.len(),
{
    if s.len() > 0 && pat.len() > 0 {
        assert(!occurs_at(s, pat, 0));
        let t = s.drop_first();
        if occurs(t, pat) {
            let i = choose|i: int| #[trigger] occurs_at(t, pat, i);
            assert(s.subrange(i + 1, i + 1 + pat.len()) =~= t.subrange(i, i + pat.len()));
            assert(occurs_at(s, pat, i + 1));
        }
        replacing_leaves_the_rest(t, pat, by);
        assert(replace_text(s, pat, by) =~= s);
    }
}

/// Texts are ordered as in a dictionary: at the first place where they differ the
/// smaller character comes first, and a text comes before its continuations.
pub proof fn first_difference_decides(p: Seq<char>, a: char, b: char, s: Seq<char>, t: Seq<char>)
    requires
        a < b,
    ensures
        in_order(p + seq![a] + s, p + seq![b] + t),
        !in_order(p + seq![b] + t, p + seq![a] + s),
        before(p, p + seq![a] + s),
    decreases p.len(),
{
    let x = p + seq![a] + s;
    let y = p + seq![b] + t;
    if p.len() == 0 {
        assert(x[0] == a && y[0] == b);
        assert(p.len() != x.len());
    } else {
        let q = p.drop_first();
        first_difference_decides(q, a, b, s, t);
        assert(x[0] == p[0] && y[0] == p[0]);
        assert(x.drop_first() =~= q + seq![a] + s);
        assert(y.drop_first() =~= q + seq![b] + t);
        assert(p.len() != x.len());
    }
}

/// Stripping takes the characters of the set from the end of a text, and nothing
/// else.
pub proof fn stripping_takes_the_set_only(s: Seq<char>, tail: Seq<char>, set: Seq<char>)
    requires
        s.len() == 0 || !set.contains(s.last()),
        forall|i: int| 0 <= i < tail.len() ==> set.contains(#[trigger] tail[i]),
    ensures
        strip_back(s + tail, set) == s,
    decreases tail.len(),
{
    let x = s + tail;
    if tail.len() == 0 {
        assert(x =~= s);
    } else {
        let t = tail.drop_last();
        assert(tail[tail.len() - 1] == tail.last());
        assert(x.last() == tail.last());
        assert(x.drop_last() =~= s + t);
        assert forall|i: int| 0 <= i < t.len() implies set.contains(#[trigger] t[i]) by {
            assert(t[i] == tail[i]);
        }
        stripping_takes_the_set_only(s, t, set);
    }
}

/// Stripping takes the characters of the set from the front of a text, and nothing
/// else.
pub proof fn stripping_in_front_takes_the_set_only(head: Seq<char>, s: Seq<char>, set: Seq<char>)
    requires
        s.len() == 0 || !set.contains(s[0]),
        forall|i: int| 0 <= i < head.len() ==> set.contains(#[trigger] head[i]),
    ensures
        strip_front(head + s, set) == s,
    decreases head.len(),
{
    let x = head + s;
    if head.len() == 0 {
        assert(x =~= s);
    } else {
        let t = head.drop_first();
        assert(set.contains(head[0]));
        assert(x[0] == head[0]);
        assert(x.drop_first() =~= t + s);
        assert forall|i: int| 0 <= i < t.len() implies set.contains(#[trigger] t[i]) by {
            assert(t[i] == head[i + 1]);
        }
        stripping_in_front_takes_the_set_only(t, s, set);
    }
}

/// Among the ASCII characters the white ones are the space and those from tab to
/// carriage return, and the control characters those below the space and the last.
pub proof fn ascii_characters_are_told_apart(c: char)
    requires
        c as u32 <= 127,
    ensures
        is_white(c) <==> c as u32 == 32 || 9 <= c as u32 <= 13,
        is_control(c) <==> (c as u32) < 32 || c as u32 == 127,
        is_digit(c) <==> 48 <= c as u32 <= 57,
        is_ascii_alnum(c) <==> 48 <= c as u32 <= 57 || 65 <= c as u32 <= 90 || 97 <= c as u32
            <= 122,
{
}

/// A text is joined with one separator between each two parts.
pub proof fn joined_parts_are_separated(v: Seq<Seq<char>>, x: Seq<char>, sep: Seq<char>)
    ensures
        join(Seq::empty(), sep).len() == 0,
        join(seq![x], sep) == x,
        v.len() > 0 ==> join(v.push(x), sep) == join(v, sep) + sep + x,
{
    assert(v.push(x).drop_last() =~= v);
}

/// A number is padded with zeros to its width and is never cut.
pub proof fn numbers_are_padded_with_zeros(n: nat, width: int)
    ensures
        decimal(n).len() >= width ==> padded(n as int, width) == decimal(n),
        decimal(n).len() < width ==> padded(n as int, width).len() == width && padded(
            n as int,
            width,
        ).skip(width - decimal(n).len()) == decimal(n) && forall|i: int|
            0 <= i < width - decimal(n).len() ==> padded(n as int, width)[i] == '0',
{
    if decimal(n).len() < width {
        assert(padded(n as int, width).skip(width - decimal(n).len()) =~= decimal(n));
    }
}

} // verus!
