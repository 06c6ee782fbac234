//! Long replies, cut into chunks that a platform accepts.

use vstd::prelude::*;
use vstd::string::*;
use vstd::utf8;

use crate::text;

verus! {

/// The bytes that a text takes in UTF-8.
pub open spec fn byte_len(s: Seq<char>) -> int {
    utf8::encode_utf8(s).len() as int
}

/// The bytes that a character takes in UTF-8.
pub open spec fn width(c: char) -> int {
    utf8::encode_scalar(c as u32).len() as int
}

/// A text as long as its parts.
pub proof fn byte_len_of_parts(a: Seq<char>, b: Seq<char>)
    ensures
        byte_len(a + b) == byte_len(a) + byte_len(b),
    decreases a.len(),
{
    if a.len() == 0 {
        assert(a + b =~= b);
    } else {
        assert((a + b).drop_first() =~= a.drop_first() + b);
        assert((a + b)[0] == a[0]);
        byte_len_of_parts(a.drop_first(), b);
    }
}

pub proof fn lemma_byte_len_push(s: Seq<char>, c: char)
    ensures
        byte_len(s.push(c)) == byte_len(s) + width(c),
        1 <= width(c) <= 4,
{
    byte_len_of_parts(s, seq![c]);
    assert(s + seq![c] =~= s.push(c));
    assert(seq![c].drop_first() =~= Seq::<char>::empty());
    assert(utf8::encode_utf8(seq![c]) =~= utf8::encode_scalar(c as u32) + utf8::encode_utf8(seq![c].drop_first()));
}

/// The bytes that a character takes in UTF-8.
pub fn char_width(c: char) -> (r: usize)
    ensures
        r == width(c),
{
    let n: u32 = c as u32;
    if n <= 0x7f {
        1
    } else if n <= 0x7ff {
        2
    } else if n <= 0xffff {
        3
    } else {
        4
    }
}

/// How many characters from the start of `s` fit in `max` bytes.
pub open spec fn window(s: Seq<char>, max: int) -> int
    decreases s.len(),
{
    if s.len() == 0 || width(s[0]) > max {
        0
    } else {
        1 + window(s.drop_first(), max - width(s[0]))
    }
}

proof fn lemma_window(s: Seq<char>, max: int)
    requires
        max >= 0,
    ensures
        0 <= window(s, max) <= s.len(),
        byte_len(s.take(window(s, max))) <= max,
        s.len() > 0 && max >= 4 ==> window(s, max) >= 1,
    decreases s.len(),
{
    if s.len() > 0 {
        lemma_byte_len_push(Seq::empty(), s[0]);
        if width(s[0]) <= max {
            let k = window(s.drop_first(), max - width(s[0]));
            lemma_window(s.drop_first(), max - width(s[0]));
            assert(s.take(k + 1).drop_first() =~= s.drop_first().take(k));
            assert(s.take(k + 1)[0] == s[0]);
        }
    }
}

/// The last position from 1 to `i` where `pat` stands in `w`.
pub open spec fn last_from(w: Seq<char>, pat: Seq<char>, i: int) -> Option<int>
    decreases i,
{
    if i < 1 {
        None
    } else if text::occurs_at(w, pat, i) {
        Some(i)
    } else {
        last_from(w, pat, i - 1)
    }
}

proof fn lemma_last_from(w: Seq<char>, pat: Seq<char>, i: int)
    ensures
        last_from(w, pat, i) matches Some(k) ==> 1 <= k <= i && text::occurs_at(w, pat, k),
    decreases i,
{
    if i >= 1 {
        lemma_last_from(w, pat, i - 1);
    }
}

/// Where to cut a text that does not fit: the length of the chunk and that of
/// the separator behind it. A section divider is the best place, then a blank
/// line, then a line end; without one the chunk is as long as it can be.
pub open spec fn cut(s: Seq<char>, max: int) -> (int, int) {
    let w = s.take(window(s, max));
    match last_from(w, "\n---\n"@, w.len() as int) {
        Some(i) => (i, "\n---\n"@.len() as int),
        None => match last_from(w, "\n\n"@, w.len() as int) {
            Some(i) => (i, "\n\n"@.len() as int),
            None => match last_from(w, "\n"@, w.len() as int) {
                Some(i) => (i, "\n"@.len() as int),
                None => (w.len() as int, 0),
            },
        },
    }
}

pub proof fn lemma_cut(s: Seq<char>, max: int)
    requires
        max >= 4,
        byte_len(s) > max,
    ensures
        1 <= cut(s, max).0,
        0 <= cut(s, max).1,
        cut(s, max).0 + cut(s, max).1 <= s.len(),
        byte_len(s.take(cut(s, max).0)) <= max,
{
    let n = window(s, max);
    let w = s.take(n);
    assert(s.len() > 0);
    lemma_window(s, max);
    lemma_last_from(w, "\n---\n"@, w.len() as int);
    lemma_last_from(w, "\n\n"@, w.len() as int);
    lemma_last_from(w, "\n"@, w.len() as int);
    let a = cut(s, max).0;
    assert(w.take(a) =~= s.take(a));
    assert(w =~= w.take(a) + w.skip(a));
    byte_len_of_parts(w.take(a), w.skip(a));
}

/// The chunks of a text, each with the separator that was cut out behind it.
pub open spec fn pieces(s: Seq<char>, max: int) -> Seq<(Seq<char>, Seq<char>)>
    decreases s.len(),
{
    if byte_len(s) <= max || max < 4 {
        seq![(s, Seq::empty())]
    } else {
        proof {
            lemma_cut(s, max);
        }
        let (a, b) = cut(s, max);
        let first = seq![(s.take(a), s.subrange(a, a + b))];
        let rest = s.skip(a + b);
        if rest.len() == 0 {
            first
        } else {
            first + pieces(rest, max)
        }
    }
}

/// The chunks without the separators.
pub open spec fn chunks(p: Seq<(Seq<char>, Seq<char>)>) -> Seq<Seq<char>> {
    Seq::new(p.len(), |i: int| p[i].0)
}

/// Chunks and separators in a row.
pub open spec fn reassembled(p: Seq<(Seq<char>, Seq<char>)>) -> Seq<char>
    decreases p.len(),
{
    if p.len() == 0 {
        Seq::empty()
    } else {
        p[0].0 + p[0].1 + reassembled(p.drop_first())
    }
}

/// Nothing but separators is lost: chunks and separators in a row are the
/// text, every separator is a section divider, a blank line, a line end or
/// empty, and no chunk is longer than the limit.
pub proof fn pieces_keep_the_text(s: Seq<char>, max: int)
    requires
        max >= 4,
    ensures
        pieces(s, max).len() >= 1,
        reassembled(pieces(s, max)) == s,
        forall|i: int|
            0 <= i < pieces(s, max).len() ==> byte_len((#[trigger] pieces(s, max)[i]).0) <= max,
        forall|i: int|
            0 <= i < pieces(s, max).len() ==> {
                let sep = (#[trigger] pieces(s, max)[i]).1;
                sep == "\n---\n"@ || sep == "\n\n"@ || sep == "\n"@ || sep.len() == 0
            },
        s.len() > 0 ==> forall|i: int|
            0 <= i < pieces(s, max).len() ==> (#[trigger] pieces(s, max)[i]).0.len() > 0,
    decreases s.len(),
{
    if byte_len(s) <= max {
        let one: Seq<(Seq<char>, Seq<char>)> = seq![(s, Seq::empty())];
        assert(one.drop_first().len() == 0);
        assert(reassembled(one.drop_first()) =~= Seq::<char>::empty());
        assert(reassembled(one) =~= s);
    } else {
        lemma_cut(s, max);
        let (a, b) = cut(s, max);
        let w = s.take(window(s, max));
        lemma_window(s, max);
        lemma_last_from(w, "\n---\n"@, w.len() as int);
        lemma_last_from(w, "\n\n"@, w.len() as int);
        lemma_last_from(w, "\n"@, w.len() as int);
        assert(b > 0 ==> w.subrange(a, a + b) =~= s.subrange(a, a + b));
        let first = seq![(s.take(a), s.subrange(a, a + b))];
        let rest = s.skip(a + b);
        let p = pieces(s, max);
        if rest.len() == 0 {
            assert(p.drop_first().len() == 0);
            assert(reassembled(p.drop_first()) =~= Seq::<char>::empty());
        } else {
            pieces_keep_the_text(rest, max);
            assert(p.drop_first() =~= pieces(rest, max));
            assert forall|i: int| 0 < i < p.len() implies p[i] == pieces(rest, max)[i - 1] by {}
        }
        assert(reassembled(p) =~= s);
    }
}

pub(crate) fn window_end(v: &[char], start: usize, max: usize) -> (end: usize)
    requires
        start <= v@.len(),
    ensures
        start <= end <= v@.len(),
        end - start == window(v@.skip(start as int), max as int),
{
    let n: usize = v.len();
    let mut left: usize = max;
    let mut i: usize = start;
    while i < n
        invariant
            start <= i <= n == v@.len(),
            i - start + window(v@.skip(i as int), left as int) == window(
                v@.skip(start as int),
                max as int,
            ),
        decreases n - i,
    {
        let w: usize = char_width(v[i]);
        assert(v@.skip(i as int)[0] == v@[i as int]);
        if w > left {
            return i;
        }
        assert(v@.skip(i as int).drop_first() =~= v@.skip(i + 1));
        left = left - w;
        i = i + 1;
    }
    i
}

fn last_in(v: &[char], start: usize, end: usize, pat: &str) -> (r: Option<usize>)
    requires
        start <= end <= v@.len(),
    ensures
        match r {
            Some(k) => last_from(v@.subrange(start as int, end as int), pat@, end - start) == Some(
                k - start,
            ) && start < k && k + pat@.len() <= end,
            None => last_from(v@.subrange(start as int, end as int), pat@, end - start) is None,
        },
{
    let p: Vec<char> = text::chars_of(pat);
    let ghost w = v@.subrange(start as int, end as int);
    let mut i: usize = end;
    while i > start
        invariant
            start <= i <= end <= v@.len(),
            w == v@.subrange(start as int, end as int),
            p@ == pat@,
            last_from(w, pat@, end - start) == last_from(w, pat@, i - start),
        decreases i,
    {
        if p.len() <= end - i {
            assert(w.subrange(i - start, i - start + pat@.len()) =~= v@.subrange(
                i as int,
                i + pat@.len(),
            ));
            if text::matches_at(v, &p, i) {
                return Some(i);
            }
        }
        i = i - 1;
    }
    None
}

/// Where to cut `v[start..]`, as `cut` says: the ends of chunk and separator.
fn cut_at(v: &[char], start: usize, max: usize) -> (r: (usize, usize))
    requires
        start <= v@.len(),
    ensures
        start <= r.0 <= r.1 <= v@.len(),
        cut(v@.skip(start as int), max as int) == (r.0 - start, r.1 - r.0),
{
    let end: usize = window_end(v, start, max);
    let ghost s = v@.skip(start as int);
    assert(s.take(end - start) =~= v@.subrange(start as int, end as int));
    match last_in(v, start, end, "\n---\n") {
        Some(k) => (k, k + text::chars_of("\n---\n").len()),
        None => match last_in(v, start, end, "\n\n") {
            Some(k) => (k, k + text::chars_of("\n\n").len()),
            None => match last_in(v, start, end, "\n") {
                Some(k) => (k, k + text::chars_of("\n").len()),
                None => (end, end),
            },
        },
    }
}

pub(crate) fn fits(v: &[char], start: usize, max: usize) -> (r: bool)
    requires
        start <= v@.len(),
    ensures
        r == (byte_len(v@.skip(start as int)) <= max),
{
    let end: usize = window_end(v, start, max);
    let ghost s = v@.skip(start as int);
    proof {
        lemma_window(s, max as int);
        lemma_fits_iff(s, max as int);
    }
    end == v.len()
}

proof fn lemma_fits_iff(s: Seq<char>, max: int)
    requires
        max >= 0,
    ensures
        window(s, max) == s.len() <==> byte_len(s) <= max,
    decreases s.len(),
{
    lemma_window(s, max);
    if s.len() > 0 {
        lemma_byte_len_push(Seq::empty(), s[0]);
        if width(s[0]) <= max {
            lemma_window(s.drop_first(), max - width(s[0]));
            lemma_fits_iff(s.drop_first(), max - width(s[0]));
        }
    }
}

/// A text in chunks of at most `max` bytes, cut at section dividers, blank
/// lines or line ends where there are some.
pub fn split_text(text: &str, max: usize) -> (r: Vec<String>)
    requires
        max >= 4,
    ensures
        text::texts(r@) == chunks(pieces(text@, max as int)),
{
    let v: Vec<char> = text::chars_of(text);
    let n: usize = v.len();
    let mut out: Vec<String> = Vec::new();
    let mut start: usize = 0;
    let ghost all = chunks(pieces(text@, max as int));
    assert(v@.skip(0) =~= text@);
    assert(text::texts(out@) + chunks(pieces(v@.skip(0), max as int)) =~= all);
    loop
        invariant_except_break
            start <= n == v@.len(),
            max >= 4,
            text::texts(out@) + chunks(pieces(v@.skip(start as int), max as int)) == all,
        ensures
            text::texts(out@) == all,
        decreases n - start,
    {
        let ghost s = v@.skip(start as int);
        let ghost before = out@;
        if fits(&v, start, max) {
            assert(v@.subrange(start as int, n as int) =~= s);
            out.push(text::string_of(&v, start, n));
            assert(text::texts(out@) =~= all);
            break;
        }
        let (a, b): (usize, usize) = cut_at(&v, start, max);
        proof {
            lemma_cut(s, max as int);
        }
        out.push(text::string_of(&v, start, a));
        assert(v@.subrange(start as int, a as int) =~= s.take(a - start));
        assert(s.skip(b - start) =~= v@.skip(b as int));
        if b == n {
            assert(text::texts(out@) =~= all);
            break;
        }
        assert(text::texts(out@) + chunks(pieces(v@.skip(b as int), max as int)) =~= all);
        start = b;
    }
    out
}

/// Whether a text takes at least `n` bytes.
pub fn bytes_reach(text: &str, n: usize) -> (r: bool)
    ensures
        r == (byte_len(text@) >= n),
{
    if n == 0 {
        return true;
    }
    let v: Vec<char> = text::chars_of(text);
    assert(v@.skip(0) =~= text@);
    !fits(&v, 0, n - 1)
}

// ── Laws ────────────────────────────────────────────────────────────────

/// A text that fits is one chunk.
pub proof fn short_text_is_one_chunk(s: Seq<char>, max: int)
    requires
        byte_len(s) <= max,
    ensures
        chunks(pieces(s, max)) == seq![s],
{
    assert(chunks(pieces(s, max)) =~= seq![s]);
}

/// The window is the longest part in front that fits.
pub proof fn window_is_as_long_as_fits(s: Seq<char>, max: int)
    requires
        max >= 0,
    ensures
        0 <= window(s, max) <= s.len(),
        byte_len(s.take(window(s, max))) <= max,
        window(s, max) < s.len() ==> byte_len(s.take(window(s, max) + 1)) > max,
    decreases s.len(),
{
    lemma_window(s, max);
    if s.len() > 0 {
        let c = seq![s[0]];
        let none = Seq::<char>::empty();
        lemma_byte_len_push(none, s[0]);
        assert(none.push(s[0]) =~= c);
        assert(byte_len(none) == 0);
        if width(s[0]) > max {
            assert(s.take(1) =~= c);
        } else {
            let t = s.drop_first();
            let left = max - width(s[0]);
            window_is_as_long_as_fits(t, left);
            let n = window(t, left);
            if n < t.len() {
                assert(s.take(n + 2) =~= c + t.take(n + 1));
                byte_len_of_parts(c, t.take(n + 1));
            }
        }
    }
}

proof fn lemma_last_from_is_last(w: Seq<char>, pat: Seq<char>, i: int)
    ensures
        match last_from(w, pat, i) {
            Some(k) => 1 <= k <= i && text::occurs_at(w, pat, k) && forall|j: int|
                k < j <= i ==> !#[trigger] text::occurs_at(w, pat, j),
            None => forall|j: int| 1 <= j <= i ==> !#[trigger] text::occurs_at(w, pat, j),
        },
    decreases i,
{
    if i >= 1 && !text::occurs_at(w, pat, i) {
        lemma_last_from_is_last(w, pat, i - 1);
    }
}

/// `pat` stands in `w` behind its start.
pub open spec fn stands_in(w: Seq<char>, pat: Seq<char>) -> bool {
    exists|j: int| 1 <= j && #[trigger] text::occurs_at(w, pat, j)
}

/// The cut takes out `pat`, where it stands last in `w`.
pub open spec fn cut_at_last(w: Seq<char>, pat: Seq<char>, c: (int, int)) -> bool {
    &&& 1 <= c.0
    &&& c.1 == pat.len()
    &&& text::occurs_at(w, pat, c.0)
    &&& forall|j: int| c.0 < j ==> !#[trigger] text::occurs_at(w, pat, j)
}

proof fn lemma_stands(w: Seq<char>, pat: Seq<char>)
    requires
        pat.len() > 0,
    ensures
        match last_from(w, pat, w.len() as int) {
            Some(k) => stands_in(w, pat) && cut_at_last(w, pat, (k, pat.len() as int)),
            None => !stands_in(w, pat),
        },
{
    lemma_last_from_is_last(w, pat, w.len() as int);
}

/// A long text is cut within what fits: at the last rule there, else between the
/// last two paragraphs, else at the last end of a line, else where the room ends.
pub proof fn long_text_is_cut_at_the_best_place(s: Seq<char>, max: int)
    requires
        max >= 4,
        byte_len(s) > max,
    ensures
        ({
            let w = s.take(window(s, max));
            let c = cut(s, max);
            &&& pieces(s, max)[0] == (s.take(c.0), s.subrange(c.0, c.0 + c.1))
            &&& if stands_in(w, "\n---\n"@) {
                cut_at_last(w, "\n---\n"@, c)
            } else if stands_in(w, "\n\n"@) {
                cut_at_last(w, "\n\n"@, c)
            } else if stands_in(w, "\n"@) {
                cut_at_last(w, "\n"@, c)
            } else {
                c == (w.len() as int, 0int)
            }
        }),
{
    let w = s.take(window(s, max));
    reveal_strlit("\n---\n");
    reveal_strlit("\n\n");
    reveal_strlit("\n");
    lemma_window(s, max);
    lemma_cut(s, max);
    lemma_stands(w, "\n---\n"@);
    lemma_stands(w, "\n\n"@);
    lemma_stands(w, "\n"@);
}

/// A long text without line ends is cut into chunks as long as fit, and nothing is
/// left out.
pub proof fn unbroken_text_is_filled_up(s: Seq<char>, max: int)
    requires
        max >= 4,
        byte_len(s) > max,
        !s.contains('\n'),
    ensures
        ({
            let n = pieces(s, max)[0].0.len() as int;
            &&& 0 < n < s.len()
            &&& pieces(s, max)[0] == (s.take(n), Seq::<char>::empty())
            &&& byte_len(s.take(n)) <= max
            &&& byte_len(s.take(n + 1)) > max
            &&& pieces(s, max).drop_first() == pieces(s.skip(n), max)
        }),
{
    window_is_as_long_as_fits(s, max);
    let n = window(s, max);
    let w = s.take(n);
    long_text_is_cut_at_the_best_place(s, max);
    lemma_cut(s, max);
    lemma_fits_iff(s, max);
    reveal_strlit("\n---\n");
    reveal_strlit("\n\n");
    reveal_strlit("\n");
    assert forall|pat: Seq<char>| pat.len() > 0 && pat[0] == '\n' implies !#[trigger] stands_in(w, pat) by {
        if stands_in(w, pat) {
            let j = choose|j: int| 1 <= j && #[trigger] text::occurs_at(w, pat, j);
            assert(w.subrange(j, j + pat.len())[0] == pat[0]);
            assert(s[j] == '\n');
        }
    }
    assert(!stands_in(w, "\n---\n"@) && !stands_in(w, "\n\n"@) && !stands_in(w, "\n"@));
    assert(cut(s, max) == (n, 0int));
    assert(s.subrange(n, n) =~= Seq::<char>::empty());
    let first = seq![(s.take(n), Seq::<char>::empty())];
    assert((first + pieces(s.skip(n), max)).drop_first() =~= pieces(s.skip(n), max));
}

} // verus!
