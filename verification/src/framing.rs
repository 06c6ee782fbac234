//! One JSON value per line: the framing of the agents' standard streams.

use vstd::prelude::*;
use vstd::string::*;

use crate::json;
use crate::json::Json;
use crate::split;
use crate::text;

verus! {

/// The longest line that is read, in bytes: enough for an inline image.
pub const DEFAULT_MAX_LINE: usize = 8_388_608;

/// The capacity of a session's event queue.
pub const EVENTS_CAP: usize = 64;

/// How long an agent process may take to exit before it is killed.
pub const SHUTDOWN_GRACE_MS: u64 = 120_000;

/// The line of a value.
pub open spec fn line_of(j: json::JsonView) -> Seq<char> {
    json::rendered(j).push('\n')
}

/// The line of a value, with its line feed.
pub fn frame_line(j: &Json) -> (r: String)
    ensures
        r@ == line_of(j@),
        !r@.drop_last().contains('\n'),
        json::canonical(j@, 100) ==> json::parsed(r@.drop_last()) == Some(j@),
{
    let mut out: String = json::render(j);
    let ghost body = out@;
    out.push('\n');
    assert(out@.drop_last() =~= body);
    out
}

/// What a line of input is.
#[derive(Debug, PartialEq, Eq)]
pub enum Line {
    /// Nothing but white space: skipped.
    Blank,
    /// No JSON: reported and skipped.
    Malformed,
    Value(Json),
}

/// What a line of input is.
pub fn read_line(line: &str) -> (r: Line)
    ensures
        r is Blank == (text::trim(line@).len() == 0),
        match r {
            Line::Blank => true,
            Line::Malformed => json::parsed(line@) is None,
            Line::Value(j) => json::parsed(line@) == Some(j@),
        },
{
    if text::trimmed(line).unicode_len() == 0 {
        return Line::Blank;
    }
    match json::parse(line) {
        Some(j) => Line::Value(j),
        None => Line::Malformed,
    }
}

/// As much of a text as fits in `n` bytes, marked where something is left out.
pub open spec fn truncated(s: Seq<char>, n: int) -> Seq<char> {
    if split::byte_len(s) <= n {
        s
    } else {
        s.take(split::window(s, n)).push('…')
    }
}

/// As much of a line as is shown in a report.
pub fn truncate(s: &str, n: usize) -> (r: String)
    ensures
        r@ == truncated(s@, n as int),
{
    let v: Vec<char> = text::chars_of(s);
    assert(v@.skip(0) =~= v@);
    if split::fits(&v, 0, n) {
        return s.to_string();
    }
    let end: usize = split::window_end(&v, 0, n);
    let mut out: String = text::string_of(&v, 0, end);
    assert(out@ =~= s@.take(end as int));
    out.push('…');
    out
}

/// A text that fits is left whole; of a longer one the longest part in front that
/// fits is kept, with an ellipsis behind it.
pub proof fn long_text_is_cut_with_an_ellipsis(s: Seq<char>, n: int)
    requires
        n >= 0,
    ensures
        split::byte_len(s) <= n ==> truncated(s, n) == s,
        split::byte_len(s) > n ==> exists|k: int|
            0 <= k < s.len() && truncated(s, n) == (#[trigger] s.take(k)).push('…')
                && split::byte_len(s.take(k)) <= n && split::byte_len(s.take(k + 1)) > n,
{
    if split::byte_len(s) > n {
        let k = split::window(s, n);
        split::window_is_as_long_as_fits(s, n);
        if k == s.len() {
            assert(s.take(k) =~= s);
        }
        assert(truncated(s, n) == s.take(k).push('…'));
    }
}

/// A frame is the text of its value on a line of its own.
pub proof fn frames_end_their_line(j: json::JsonView)
    ensures
        line_of(j) == json::rendered(j) + "\n"@,
{
    reveal_strlit("\n");
    assert(line_of(j) =~= json::rendered(j) + "\n"@);
}

/// The limits: eight mebibytes for a line, 64 events that wait, and two minutes to
/// end.
pub proof fn limits_are_the_documented_ones()
    ensures
        DEFAULT_MAX_LINE == 8 * 1024 * 1024,
        EVENTS_CAP == 64,
        SHUTDOWN_GRACE_MS == 120 * 1_000,
{
}

} // verus!
