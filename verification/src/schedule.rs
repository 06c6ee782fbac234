//! Scheduled actions: when a stored prompt is sent into an agent session, once
//! or again and again.

use vstd::prelude::*;
use vstd::string::*;

use crate::calendar;
use crate::text;
use crate::types;
use crate::types::{Message, ReplyCtx, SessionKey};

verus! {

/// Milliseconds of a day.
pub const DAY_MS: u64 = 86_400_000;

#[derive(Clone, Copy, Debug, PartialEq, Eq, Structural)]
pub enum ScheduleKind {
    Once { fire_at_ms: i64 },
    Recurring { interval_ms: u64, next_fire_ms: i64 },
}

impl ScheduleKind {
    /// When the schedule fires next.
    pub open spec fn next(self) -> int {
        match self {
            ScheduleKind::Once { fire_at_ms } => fire_at_ms as int,
            ScheduleKind::Recurring { next_fire_ms, .. } => next_fire_ms as int,
        }
    }

    /// The time that a recurring schedule moves on to can be written down.
    pub open spec fn advances(self) -> bool {
        match self {
            ScheduleKind::Once { .. } => true,
            ScheduleKind::Recurring { interval_ms, next_fire_ms } => interval_ms <= i64::MAX
                && next_fire_ms + interval_ms <= i64::MAX,
        }
    }

    /// The schedule after it has fired.
    pub open spec fn advanced(self) -> ScheduleKind {
        match self {
            ScheduleKind::Once { .. } => self,
            ScheduleKind::Recurring { interval_ms, next_fire_ms } => ScheduleKind::Recurring {
                interval_ms,
                next_fire_ms: (next_fire_ms + interval_ms) as i64,
            },
        }
    }

    /// Whether the time to fire has come.
    pub fn should_fire(&self, now: i64) -> (r: bool)
        ensures
            r == (now >= self.next()),
    {
        match self {
            ScheduleKind::Once { fire_at_ms } => now >= *fire_at_ms,
            ScheduleKind::Recurring { next_fire_ms, .. } => now >= *next_fire_ms,
        }
    }

    /// Whether `advance` can write down the next time.
    pub fn can_advance(&self) -> (r: bool)
        ensures
            r == self.advances(),
    {
        match self {
            ScheduleKind::Once { .. } => true,
            ScheduleKind::Recurring { interval_ms, next_fire_ms } => *interval_ms as i128
                <= 9_223_372_036_854_775_807 && *next_fire_ms as i128 + *interval_ms as i128
                <= 9_223_372_036_854_775_807,
        }
    }

    /// Move a recurring schedule on by one interval.
    pub fn advance(&mut self)
        requires
            old(self).advances(),
        ensures
            *final(self) == old(self).advanced(),
    {
        let kind: ScheduleKind = *self;
        *self = match kind {
            ScheduleKind::Once { fire_at_ms } => ScheduleKind::Once { fire_at_ms },
            ScheduleKind::Recurring { interval_ms, next_fire_ms } => ScheduleKind::Recurring {
                interval_ms,
                next_fire_ms: next_fire_ms + interval_ms as i64,
            },
        };
    }

    pub fn is_once(&self) -> (r: bool)
        ensures
            r == (self is Once),
    {
        match self {
            ScheduleKind::Once { .. } => true,
            ScheduleKind::Recurring { .. } => false,
        }
    }
}

/// Firing moves a recurring schedule by exactly one interval and leaves a
/// one-shot as it is; neither changes its sort.
pub proof fn advancing_moves_by_one_interval(k: ScheduleKind)
    requires
        k.advances(),
    ensures
        k.advanced() is Once <==> k is Once,
        k is Once ==> k.advanced() == k,
        k matches ScheduleKind::Recurring { interval_ms, next_fire_ms } ==> k.advanced().next()
            == next_fire_ms + interval_ms && (interval_ms > 0 ==> k.advanced().next() > k.next()),
{
}

// ── Durations and clock times ───────────────────────────────────────────

/// Milliseconds of a duration suffix.
pub open spec fn unit_ms(c: char) -> Option<int> {
    if c == 's' {
        Some(1_000)
    } else if c == 'm' {
        Some(60_000)
    } else if c == 'h' {
        Some(3_600_000)
    } else if c == 'd' {
        Some(86_400_000)
    } else {
        None
    }
}

/// The milliseconds that a duration such as `30m` stands for.
pub open spec fn duration(s: Seq<char>) -> Result<int, Seq<char>> {
    let t = text::trim(s);
    if t.len() == 0 {
        Err("empty duration"@)
    } else {
        match unit_ms(t.last()) {
            None => Err("unknown duration suffix in `"@ + t + "`. Use s/m/h/d"@),
            Some(unit) => match text::parse_upto(text::trim(t.drop_last()), u64::MAX as int) {
                None => Err("invalid number in duration `"@ + t + "`"@),
                Some(n) => if n == 0 {
                    Err("duration must be > 0"@)
                } else {
                    Ok(n * unit)
                },
            },
        }
    }
}

/// A number, or the message of an error.
pub open spec fn number_is(r: Result<i128, String>, e: Result<int, Seq<char>>) -> bool {
    match (r, e) {
        (Ok(a), Ok(b)) => a == b,
        (Err(a), Err(b)) => a@ == b,
        _ => false,
    }
}

fn wide_duration(s: &str) -> (r: Result<i128, String>)
    ensures
        number_is(r, duration(s@)),
        r matches Ok(n) ==> 0 < n <= u64::MAX * 86_400_000,
{
    let t: String = text::trimmed(s);
    let v: Vec<char> = text::chars_of(t.as_str());
    let n: usize = v.len();
    if n == 0 {
        return Err("empty duration".to_string());
    }
    let unit: i128 = match v[n - 1] {
        's' => 1_000,
        'm' => 60_000,
        'h' => 3_600_000,
        'd' => 86_400_000,
        _ => {
            return Err(
                text::concat3("unknown duration suffix in `", t.as_str(), "`. Use s/m/h/d"),
            );
        },
    };
    let num: String = text::string_of(&v, 0, n - 1);
    assert(num@ =~= t@.drop_last());
    match text::parse_number(text::trimmed(num.as_str()).as_str(), u64::MAX) {
        None => Err(text::concat3("invalid number in duration `", t.as_str(), "`")),
        Some(k) => if k == 0 {
            Err("duration must be > 0".to_string())
        } else {
            proof {
                assert(0 < k * unit <= u64::MAX * 86_400_000) by (nonlinear_arith)
                    requires
                        1 <= k <= u64::MAX,
                        1 <= unit <= 86_400_000,
                ;
                assert(k * unit == (k as nat) * (unit as int));
            }
            Ok(k as i128 * unit)
        },
    }
}

/// The milliseconds of a duration: a number with the suffix `s`, `m`, `h` or
/// `d`.
pub fn parse_duration_ms(s: &str) -> (r: Result<u64, String>)
    requires
        duration(s@) matches Ok(n) ==> n <= u64::MAX,
    ensures
        match (r, duration(s@)) {
            (Ok(a), Ok(b)) => a == b,
            (Err(a), Err(b)) => a@ == b,
            _ => false,
        },
{
    match wide_duration(s) {
        Ok(n) => Ok(n as u64),
        Err(e) => Err(e),
    }
}

/// The hour and the minute of a time such as `09:30`.
pub open spec fn clock_time(s: Seq<char>) -> Result<(int, int), Seq<char>> {
    let p = text::split(s, ':');
    if p.len() != 2 {
        Err("expected HH:MM format, got `"@ + s + "`"@)
    } else {
        match text::parse_upto(p[0], u32::MAX as int) {
            None => Err("invalid hour in `"@ + s + "`"@),
            Some(h) => match text::parse_upto(p[1], u32::MAX as int) {
                None => Err("invalid minute in `"@ + s + "`"@),
                Some(m) => if h >= 24 {
                    Err("hour must be 0-23, got "@ + text::decimal(h))
                } else if m >= 60 {
                    Err("minute must be 0-59, got "@ + text::decimal(m))
                } else {
                    Ok((h as int, m as int))
                },
            },
        }
    }
}

/// The hour and the minute of a time such as `09:30`.
pub fn parse_hh_mm(s: &str) -> (r: Result<(u32, u32), String>)
    ensures
        match (r, clock_time(s@)) {
            (Ok(a), Ok(b)) => a.0 == b.0 && a.1 == b.1 && a.0 < 24 && a.1 < 60,
            (Err(a), Err(b)) => a@ == b,
            _ => false,
        },
{
    let p: Vec<String> = text::split_at_char(s, ':');
    let ghost spec_p = text::split(s@, ':');
    assert(spec_p.len() == p@.len());
    if p.len() != 2 {
        return Err(text::concat3("expected HH:MM format, got `", s, "`"));
    }
    assert(spec_p[0] == p@[0]@ && spec_p[1] == p@[1]@);
    let h: u64 = match text::parse_number(p[0].as_str(), 4_294_967_295) {
        Some(h) => h,
        None => {
            return Err(text::concat3("invalid hour in `", s, "`"));
        },
    };
    let m: u64 = match text::parse_number(p[1].as_str(), 4_294_967_295) {
        Some(m) => m,
        None => {
            return Err(text::concat3("invalid minute in `", s, "`"));
        },
    };
    if h >= 24 {
        return Err(text::concat2("hour must be 0-23, got ", text::decimal_text(h).as_str()));
    }
    if m >= 60 {
        return Err(text::concat2("minute must be 0-59, got ", text::decimal_text(m).as_str()));
    }
    Ok((h as u32, m as u32))
}

/// The first time after `now` at which the UTC clock shows `h:m`.
pub open spec fn next_daily(now: int, h: int, m: int) -> int {
    let target = now - now % 86_400_000 + h * 3_600_000 + m * 60_000;
    if target > now {
        target
    } else {
        target + 86_400_000
    }
}

/// The next daily time lies within the coming 24 hours and at the given time
/// of day.
pub proof fn next_daily_is_within_a_day(now: int, h: int, m: int)
    requires
        0 <= h < 24,
        0 <= m < 60,
    ensures
        now < next_daily(now, h, m) <= now + 86_400_000,
        next_daily(now, h, m) % 86_400_000 == h * 3_600_000 + m * 60_000,
{
}

/// The first time after `now` at which the UTC clock shows `h:m`.
pub fn next_daily_fire(now: i64, h: u32, m: u32) -> (r: i64)
    requires
        0 <= now <= i64::MAX - 200_000_000,
        h < 24,
        m < 60,
    ensures
        r == next_daily(now as int, h as int, m as int),
        now < r <= now + 86_400_000,
{
    let target: i64 = now - now % 86_400_000 + h as i64 * 3_600_000 + m as i64 * 60_000;
    if target > now {
        target
    } else {
        target + 86_400_000
    }
}

// ── Schedules ───────────────────────────────────────────────────────────

/// A schedule before it is known to fit the clock's range.
pub enum Plan {
    Once { at: int },
    Recurring { interval: int, next: int },
}

/// The time of `YYYY-MM-DD HH:MM`.
pub open spec fn date_time(s: Seq<char>, now: int) -> Result<int, Seq<char>> {
    if !s.contains(' ') {
        Err("expected YYYY-MM-DD HH:MM, got `"@ + s + "`"@)
    } else {
        let date = text::split(s, ' ')[0];
        let time = s.skip(date.len() as int + 1);
        let p = text::split(date, '-');
        if p.len() != 3 {
            Err("expected YYYY-MM-DD date, got `"@ + date + "`"@)
        } else {
            match (text::parse_i64(p[0]), text::parse_i64(p[1]), text::parse_i64(p[2])) {
                (None, _, _) => Err("invalid year"@),
                (_, None, _) => Err("invalid month"@),
                (_, _, None) => Err("invalid day"@),
                (Some(y), Some(mo), Some(d)) => if !(1 <= mo <= 12) {
                    Err("month must be 1-12"@)
                } else if !(1 <= d <= 31) {
                    Err("day must be 1-31"@)
                } else {
                    match clock_time(time) {
                        Err(e) => Err(e),
                        Ok((h, m)) => {
                            let at = calendar::epoch_ms(y as int, mo as int, d as int, h, m);
                            if at <= now {
                                Err("scheduled time is in the past"@)
                            } else {
                                Ok(at)
                            }
                        },
                    }
                },
            }
        }
    }
}

/// The time of `YYYY-MM-DD HH:MM`, or the next one of `HH:MM`.
pub open spec fn absolute_time(s: Seq<char>, now: int) -> Result<int, Seq<char>> {
    let t = text::trim(s);
    if t.contains('-') {
        date_time(t, now)
    } else {
        match clock_time(t) {
            Err(e) => Err(e),
            Ok((h, m)) => Ok(next_daily(now, h, m)),
        }
    }
}

/// What a schedule specification asks for at time `now`.
pub open spec fn planned(input: Seq<char>, now: int) -> Result<Plan, Seq<char>> {
    let t = text::trim(input);
    if text::has_prefix(t, "in "@) {
        match duration(text::trim(t.skip("in "@.len() as int))) {
            Err(e) => Err(e),
            Ok(n) => Ok(Plan::Once { at: now + n }),
        }
    } else if text::has_prefix(t, "at "@) {
        match absolute_time(text::trim(t.skip("at "@.len() as int)), now) {
            Err(e) => Err(e),
            Ok(at) => Ok(Plan::Once { at }),
        }
    } else if text::has_prefix(t, "every "@) {
        let rest = text::trim(t.skip("every "@.len() as int));
        if text::has_prefix(rest, "day "@) {
            match clock_time(text::trim(rest.skip("day "@.len() as int))) {
                Err(e) => Err(e),
                Ok((h, m)) => Ok(
                    Plan::Recurring { interval: DAY_MS as int, next: next_daily(now, h, m) },
                ),
            }
        } else {
            match duration(rest) {
                Err(e) => Err(e),
                Ok(n) => Ok(Plan::Recurring { interval: n, next: now + n }),
            }
        }
    } else {
        Err(
            "unrecognized schedule format. Use: in <duration>, at <time>, every <duration>"@,
        )
    }
}

/// A time of day as two digits for the hour and two for the minute.
pub open spec fn clock_text(h: int, m: int) -> Seq<char> {
    text::padded(h, 2) + ":"@ + text::padded(m, 2)
}

/// Two digits, and the number they denote.
proof fn lemma_two_digits(n: int)
    requires
        0 <= n < 100,
    ensures
        text::padded(n, 2).len() == 2,
        text::all_digits(text::padded(n, 2)),
        text::parse_nat(text::padded(n, 2)) == Some(n as nat),
{
    let s = text::padded(n, 2);
    let d = text::decimal(n as nat);
    text::decimal_reads_back(n as nat);
    if n < 10 {
        assert(d.len() == 1);
        assert(s =~= seq!['0', d[0]]);
        assert(s.drop_last() =~= seq!['0']);
        assert(seq!['0'].drop_last() =~= Seq::<char>::empty());
        assert(d.drop_last() =~= Seq::<char>::empty());
        reveal_with_fuel(text::digits_value, 3);
        assert(text::digits_value(s) == text::digits_value(d));
    } else {
        assert(text::decimal(n as nat / 10).len() == 1);
        assert(d.len() == 2);
    }
    assert(text::is_digit(s[0]) && text::is_digit(s[1]));
}

/// A text without `c` is one piece.
proof fn lemma_one_piece(s: Seq<char>, c: char)
    requires
        !s.contains(c),
    ensures
        text::split(s, c) == seq![s],
    decreases s.len(),
{
    if s.len() > 0 {
        let t = s.drop_last();
        assert forall|i: int| 0 <= i < t.len() implies t[i] != c by {
            assert(t[i] == s[i]);
        }
        assert(s[s.len() - 1] == s.last());
        lemma_one_piece(t, c);
        assert(t.push(s.last()) =~= s);
        assert(text::split(s, c) =~= seq![s]);
    }
}

/// Two texts without `c` with `c` between them are two pieces.
proof fn lemma_two_pieces(a: Seq<char>, b: Seq<char>, c: char)
    requires
        !a.contains(c),
        !b.contains(c),
    ensures
        text::split(a + seq![c] + b, c) == seq![a, b],
    decreases b.len(),
{
    let s = a + seq![c] + b;
    if b.len() == 0 {
        lemma_one_piece(a, c);
        assert(s.drop_last() =~= a);
        assert(s.last() == c);
        assert(b =~= Seq::<char>::empty());
        assert(text::split(s, c) =~= seq![a, b]);
    } else {
        let t = b.drop_last();
        assert forall|i: int| 0 <= i < t.len() implies t[i] != c by {
            assert(t[i] == b[i]);
        }
        assert(b[b.len() - 1] == b.last());
        lemma_two_pieces(a, t, c);
        assert(s.drop_last() =~= a + seq![c] + t);
        assert(s.last() == b.last());
        let front = text::split(s.drop_last(), c);
        assert(front.last() == t);
        assert(t.push(b.last()) =~= b);
        assert(text::split(s, c) =~= seq![a, b]);
    }
}

/// A text that neither starts nor ends with white space is trimmed already.
proof fn lemma_trimmed(s: Seq<char>)
    requires
        s.len() > 0,
        !text::is_white(s[0]),
        !text::is_white(s.last()),
    ensures
        text::trim(s) == s,
{
}

proof fn lemma_clock_text(h: int, m: int)
    requires
        0 <= h < 24,
        0 <= m < 60,
    ensures
        clock_text(h, m).len() == 5,
        forall|i: int|
            0 <= i < 5 ==> text::is_digit(#[trigger] clock_text(h, m)[i]) || clock_text(h, m)[i]
                == ':',
        text::is_digit(clock_text(h, m)[0]),
        text::is_digit(clock_text(h, m)[4]),
        clock_time(clock_text(h, m)) == Ok::<(int, int), Seq<char>>((h, m)),
{
    let (a, b) = (text::padded(h, 2), text::padded(m, 2));
    reveal_strlit(":");
    assert(":"@ =~= seq![':']);
    lemma_two_digits(h);
    lemma_two_digits(m);
    assert(!a.contains(':')) by {
        if a.contains(':') {
            let i = choose|i: int| 0 <= i < a.len() && a[i] == ':';
            assert(text::is_digit(a[i]));
        }
    }
    assert(!b.contains(':')) by {
        if b.contains(':') {
            let i = choose|i: int| 0 <= i < b.len() && b[i] == ':';
            assert(text::is_digit(b[i]));
        }
    }
    lemma_two_pieces(a, b, ':');
    assert(clock_text(h, m)[0] == a[0] && clock_text(h, m)[1] == a[1]);
    assert(clock_text(h, m)[3] == b[0] && clock_text(h, m)[4] == b[1]);
}

/// `at HH:MM` asks for the next time at which the UTC clock shows it, and
/// `every day HH:MM` for that time and then every day: the first time after `now`
/// of that hour and minute, for every hour and minute.
#[verifier::spinoff_prover]
#[verifier::rlimit(40)]
pub proof fn clock_times_are_the_next(h: int, m: int, now: int)
    requires
        0 <= h < 24,
        0 <= m < 60,
    ensures
        planned("at "@ + clock_text(h, m), now) == Ok::<Plan, Seq<char>>(
            Plan::Once { at: next_daily(now, h, m) },
        ),
        planned("every day "@ + clock_text(h, m), now) == Ok::<Plan, Seq<char>>(
            Plan::Recurring { interval: 86_400_000, next: next_daily(now, h, m) },
        ),
        next_daily(now, h, m) > now,
        next_daily(now, h, m) % 86_400_000 == h * 3_600_000 + m * 60_000,
        forall|t: int|
            t > now && #[trigger] (t % 86_400_000) == h * 3_600_000 + m * 60_000 ==> t >= next_daily(
                now,
                h,
                m,
            ),
{
    let c = clock_text(h, m);
    lemma_clock_text(h, m);
    next_daily_is_within_a_day(now, h, m);
    reveal_strlit("at ");
    reveal_strlit("in ");
    reveal_strlit("every ");
    reveal_strlit("every day ");
    reveal_strlit("day ");
    lemma_trimmed(c);
    assert(!c.contains('-')) by {
        if c.contains('-') {
            let i = choose|i: int| 0 <= i < c.len() && c[i] == '-';
            assert(text::is_digit(c[i]) || c[i] == ':');
        }
    }
    let once = "at "@ + c;
    assert(once.last() == c[4]);
    lemma_trimmed(once);
    assert(once.subrange(0, 3) =~= "at "@);
    assert(!text::has_prefix(once, "in "@)) by {
        assert(once.subrange(0, 3)[0] == 'a');
        assert("in "@[0] == 'i');
    }
    assert(once.skip(3) =~= c);
    let daily = "every day "@ + c;
    let rest = "day "@ + c;
    assert(daily.last() == c[4] && rest.last() == c[4]);
    lemma_trimmed(daily);
    lemma_trimmed(rest);
    assert(daily.subrange(0, 3)[0] == 'e' && "in "@[0] == 'i' && "at "@[0] == 'a');
    assert(!text::has_prefix(daily, "in "@) && !text::has_prefix(daily, "at "@));
    assert(daily.subrange(0, 6) =~= "every "@);
    assert(daily.skip(6) =~= rest);
    assert(rest.subrange(0, 4) =~= "day "@);
    assert(rest.skip(4) =~= c);
    assert forall|t: int|
        t > now && #[trigger] (t % 86_400_000) == h * 3_600_000 + m * 60_000 implies t
        >= next_daily(now, h, m) by {}
}

/// The times of a plan can be written down.
pub open spec fn plan_fits(p: Result<Plan, Seq<char>>) -> bool {
    match p {
        Ok(Plan::Once { at }) => at <= i64::MAX,
        Ok(Plan::Recurring { interval, next }) => interval <= u64::MAX && next <= i64::MAX,
        Err(_) => true,
    }
}

/// A schedule is the one that was planned, an error the one that was due.
pub open spec fn as_planned(
    r: Result<ScheduleKind, String>,
    p: Result<Plan, Seq<char>>,
) -> bool {
    match (r, p) {
        (Ok(ScheduleKind::Once { fire_at_ms }), Ok(Plan::Once { at })) => fire_at_ms == at,
        (
            Ok(ScheduleKind::Recurring { interval_ms, next_fire_ms }),
            Ok(Plan::Recurring { interval, next }),
        ) => interval_ms == interval && next_fire_ms == next,
        (Err(a), Err(b)) => a@ == b,
        _ => false,
    }
}

enum WidePlan {
    Once { at: i128 },
    Recurring { interval: i128, next: i128 },
}

spec fn wide_is(r: Result<WidePlan, String>, p: Result<Plan, Seq<char>>) -> bool {
    match (r, p) {
        (Ok(WidePlan::Once { at }), Ok(Plan::Once { at: b })) => at == b && at >= 0,
        (
            Ok(WidePlan::Recurring { interval, next }),
            Ok(Plan::Recurring { interval: i, next: n }),
        ) => interval == i && next == n && interval >= 0 && next >= 0,
        (Err(a), Err(b)) => a@ == b,
        _ => false,
    }
}

fn wide_date_time(s: &str, now: i64) -> (r: Result<i128, String>)
    requires
        now >= 0,
    ensures
        number_is(r, date_time(s@, now as int)),
        r matches Ok(n) ==> n >= 0,
{
    let (date, time): (String, String) = match text::cut_at_char(s, ' ') {
        Some((a, b)) => (a, b),
        None => {
            return Err(text::concat3("expected YYYY-MM-DD HH:MM, got `", s, "`"));
        },
    };
    proof {
        text::lemma_split_first(s@, ' ', date@.len() as int);
        assert(s@[date@.len() as int] == ' ');
    }
    let p: Vec<String> = text::split_at_char(date.as_str(), '-');
    let ghost spec_p = text::split(date@, '-');
    assert(spec_p.len() == p@.len());
    if p.len() != 3 {
        return Err(text::concat3("expected YYYY-MM-DD date, got `", date.as_str(), "`"));
    }
    assert(spec_p[0] == p@[0]@ && spec_p[1] == p@[1]@ && spec_p[2] == p@[2]@);
    let year: i64 = match text::parse_signed(p[0].as_str()) {
        Some(y) => y,
        None => {
            return Err("invalid year".to_string());
        },
    };
    let month: i64 = match text::parse_signed(p[1].as_str()) {
        Some(m) => m,
        None => {
            return Err("invalid month".to_string());
        },
    };
    let day: i64 = match text::parse_signed(p[2].as_str()) {
        Some(d) => d,
        None => {
            return Err("invalid day".to_string());
        },
    };
    if month < 1 || month > 12 {
        return Err("month must be 1-12".to_string());
    }
    if day < 1 || day > 31 {
        return Err("day must be 1-31".to_string());
    }
    match parse_hh_mm(time.as_str()) {
        Err(e) => Err(e),
        Ok((h, m)) => {
            let at: i128 = calendar::wide_epoch_ms(year, month, day, h as i64, m as i64);
            if at <= now as i128 {
                Err("scheduled time is in the past".to_string())
            } else {
                Ok(at)
            }
        },
    }
}

fn wide_absolute(s: &str, now: i64) -> (r: Result<i128, String>)
    requires
        0 <= now <= i64::MAX - 200_000_000,
    ensures
        number_is(r, absolute_time(s@, now as int)),
        r matches Ok(n) ==> n >= 0,
{
    let t: String = text::trimmed(s);
    if text::has_char(t.as_str(), '-') {
        wide_date_time(t.as_str(), now)
    } else {
        match parse_hh_mm(t.as_str()) {
            Err(e) => Err(e),
            Ok((h, m)) => Ok(next_daily_fire(now, h, m) as i128),
        }
    }
}

fn wide_plan(input: &str, now: i64) -> (r: Result<WidePlan, String>)
    requires
        0 <= now <= i64::MAX - 200_000_000,
    ensures
        wide_is(r, planned(input@, now as int)),
{
    let t: String = text::trimmed(input);
    if let Some(rest) = text::after_prefix(t.as_str(), "in ") {
        return match wide_duration(text::trimmed(rest.as_str()).as_str()) {
            Ok(n) => Ok(WidePlan::Once { at: now as i128 + n }),
            Err(e) => Err(e),
        };
    }
    if let Some(rest) = text::after_prefix(t.as_str(), "at ") {
        return match wide_absolute(text::trimmed(rest.as_str()).as_str(), now) {
            Ok(at) => Ok(WidePlan::Once { at }),
            Err(e) => Err(e),
        };
    }
    if let Some(rest) = text::after_prefix(t.as_str(), "every ") {
        let rest: String = text::trimmed(rest.as_str());
        return match text::after_prefix(rest.as_str(), "day ") {
            Some(time) => match parse_hh_mm(text::trimmed(time.as_str()).as_str()) {
                Ok((h, m)) => Ok(
                    WidePlan::Recurring {
                        interval: 86_400_000,
                        next: next_daily_fire(now, h, m) as i128,
                    },
                ),
                Err(e) => Err(e),
            },
            None => match wide_duration(rest.as_str()) {
                Ok(n) => Ok(WidePlan::Recurring { interval: n, next: now as i128 + n }),
                Err(e) => Err(e),
            },
        };
    }
    Err(
        "unrecognized schedule format. Use: in <duration>, at <time>, every <duration>".to_string(),
    )
}

/// The schedule that a specification asks for at time `now`:
/// - `in 30m`, `in 2h`, `in 1d`: once, that long from now
/// - `at 2025-03-05 14:00`, `at 14:00`: once, at that time in UTC
/// - `every 30m`, `every 2h`, `every 1d`: again and again
/// - `every day 09:00`: every day at that time in UTC
pub fn parse_schedule_at(input: &str, now: i64) -> (r: Result<ScheduleKind, String>)
    requires
        0 <= now <= i64::MAX - 200_000_000,
        plan_fits(planned(input@, now as int)),
    ensures
        as_planned(r, planned(input@, now as int)),
{
    match wide_plan(input, now) {
        Ok(WidePlan::Once { at }) => Ok(ScheduleKind::Once { fire_at_ms: at as i64 }),
        Ok(WidePlan::Recurring { interval, next }) => Ok(
            ScheduleKind::Recurring { interval_ms: interval as u64, next_fire_ms: next as i64 },
        ),
        Err(e) => Err(e),
    }
}

/// As `parse_schedule_at`, with an error of its own for a time that cannot be
/// written down.
pub fn checked_schedule_at(input: &str, now: i64) -> (r: Result<ScheduleKind, String>)
    requires
        0 <= now <= i64::MAX - 200_000_000,
    ensures
        plan_fits(planned(input@, now as int)) ==> as_planned(r, planned(input@, now as int)),
        !plan_fits(planned(input@, now as int)) ==> (r matches Err(e) && e@
            == "schedule is out of range"@),
{
    let fits: bool = match wide_plan(input, now) {
        Ok(WidePlan::Once { at }) => at <= 9_223_372_036_854_775_807,
        Ok(WidePlan::Recurring { interval, next }) => interval <= 18_446_744_073_709_551_615 && next
            <= 9_223_372_036_854_775_807,
        Err(_) => true,
    };
    if fits {
        parse_schedule_at(input, now)
    } else {
        Err("schedule is out of range".to_string())
    }
}

proof fn lemma_date_time_later(s: Seq<char>, now: int, later: int)
    requires
        now <= later,
    ensures
        date_time(s, now) matches Ok(at) ==> at <= later || date_time(s, later) == date_time(s, now),
{
}

proof fn lemma_clock_time(s: Seq<char>, now: int)
    ensures
        clock_time(s) matches Ok((h, m)) ==> next_daily(now, h, m) <= now + 86_400_000,
{
    if let Ok((h, m)) = clock_time(s) {
        next_daily_is_within_a_day(now, h, m);
    }
}

/// A plan that fits at the latest time the clock reports fits before it.
proof fn lemma_fits_earlier(input: Seq<char>, now: int)
    requires
        0 <= now <= types::CLOCK_MAX,
        plan_fits(planned(input, types::CLOCK_MAX as int)),
    ensures
        plan_fits(planned(input, now)),
{
    let t = text::trim(input);
    let rest = text::trim(text::trim(t.skip("at "@.len() as int)));
    lemma_date_time_later(rest, now, types::CLOCK_MAX as int);
    lemma_clock_time(rest, now);
    let daily = text::trim(t.skip("every "@.len() as int));
    lemma_clock_time(text::trim(daily.skip("day "@.len() as int)), now);
}

/// The schedule that a specification asks for at the time of the call.
pub fn parse_schedule(input: &str) -> (r: Result<ScheduleKind, String>)
    requires
        plan_fits(planned(input@, types::CLOCK_MAX as int)),
    ensures
        exists|now: int|
            0 <= now <= types::CLOCK_MAX && as_planned(r, #[trigger] planned(input@, now)),
{
    let now: i64 = types::now_ms();
    proof {
        lemma_fits_earlier(input@, now as int);
    }
    let r: Result<ScheduleKind, String> = parse_schedule_at(input, now);
    assert(as_planned(r, planned(input@, now as int)));
    r
}

// ── Display ─────────────────────────────────────────────────────────────

/// Division that drops the fraction.
pub open spec fn quot(a: int, b: int) -> int {
    if a >= 0 {
        a / b
    } else {
        -((-a) / b)
    }
}

/// What `quot` leaves over.
pub open spec fn rest(a: int, b: int) -> int {
    a - b * quot(a, b)
}

/// A date and a time of day, as `2025-01-01 00:00 UTC`.
pub open spec fn utc_text(date: (int, int, int), h: int, m: int) -> Seq<char> {
    text::padded(date.0, 4) + "-"@ + text::padded(date.1, 2) + "-"@ + text::padded(date.2, 2)
        + " "@ + text::padded(h, 2) + ":"@ + text::padded(m, 2) + " UTC"@
}

/// The UTC date and time of a time in milliseconds since 1970.
pub open spec fn utc_ms_text(ms: int) -> Seq<char> {
    let total = quot(ms, 1000);
    let in_day = rest(total, 86_400);
    utc_text(
        calendar::date_of_day(quot(total, 86_400)),
        quot(in_day, 3600),
        quot(rest(in_day, 3600), 60),
    )
}

fn split_off(a: i64, b: i64) -> (r: (i64, i64))
    requires
        1 <= b <= 100_000,
    ensures
        r.0 == quot(a as int, b as int),
        r.1 == rest(a as int, b as int),
        a >= 0 ==> 0 <= r.1 < b && 0 <= r.0 <= a,
        a < 0 ==> -b < r.1 <= 0 && a <= r.0 <= 0,
{
    let wide: i128 = a as i128;
    let q: i128 = if wide >= 0 {
        wide / b as i128
    } else {
        -((-wide) / b as i128)
    };
    proof {
        let n: int = if a >= 0 {
            a as int
        } else {
            -(a as int)
        };
        let d = b as int;
        assert(0 <= n / d <= n && d * (n / d) <= n && n - d * (n / d) < d) by (nonlinear_arith)
            requires
                n >= 0,
                d >= 1,
        ;
        assert(d * (-(n / d)) == -(d * (n / d))) by (nonlinear_arith);
    }
    let r: i128 = wide - b as i128 * q;
    (q as i64, r as i64)
}

/// The UTC date and time of a time in milliseconds since 1970.
pub fn format_utc_ms(ms: i64) -> (r: String)
    ensures
        r@ == utc_ms_text(ms as int),
{
    let (total, _): (i64, i64) = split_off(ms, 1000);
    assert(-9_300_000_000_000_000 <= total <= 9_300_000_000_000_000);
    let (day, in_day): (i64, i64) = split_off(total, 86_400);
    assert(-200_000_000_000 <= day <= 200_000_000_000);
    let (h, in_hour): (i64, i64) = split_off(in_day, 3600);
    let (m, _): (i64, i64) = split_off(in_hour, 60);
    let (year, month, d): (i64, i64, i64) = calendar::date_from_day(day);
    let mut out: String = text::padded_text(year, 4);
    out.append("-");
    out.append(text::padded_text(month, 2).as_str());
    out.append("-");
    out.append(text::padded_text(d, 2).as_str());
    out.append(" ");
    out.append(text::padded_text(h, 2).as_str());
    out.append(":");
    out.append(text::padded_text(m, 2).as_str());
    out.append(" UTC");
    out
}

/// A time that was made from a date is shown as that date.
pub proof fn shown_date_is_the_date(y: int, mo: int, d: int, h: int, m: int)
    requires
        calendar::valid_date(y, mo, d),
        0 <= h < 24,
        0 <= m < 60,
        calendar::epoch_ms(y, mo, d, h, m) >= 0,
    ensures
        utc_ms_text(calendar::epoch_ms(y, mo, d, h, m)) == utc_text((y, mo, d), h, m),
{
    let day = calendar::epoch_day(y, mo, d);
    let ms = calendar::epoch_ms(y, mo, d, h, m);
    let total = quot(ms, 1000);
    assert(total == day * 86_400 + h * 3_600 + m * 60);
    assert(quot(total, 86_400) == day);
    let in_day = rest(total, 86_400);
    assert(in_day == h * 3_600 + m * 60);
    assert(quot(in_day, 3600) == h);
    assert(rest(in_day, 3600) == m * 60);
    calendar::date_of_day_is(y, mo, d);
}

/// A number of units, such as `1 day` or `3 days`.
pub open spec fn units_text(n: int, one: Seq<char>, many: Seq<char>) -> Seq<char> {
    if n == 1 {
        one
    } else {
        text::decimal(n as nat) + many
    }
}

/// A duration in its largest whole unit.
pub open spec fn duration_text(ms: int) -> Seq<char> {
    if ms % 86_400_000 == 0 {
        units_text(ms / 86_400_000, "1 day"@, " days"@)
    } else if ms % 3_600_000 == 0 {
        units_text(ms / 3_600_000, "1 hour"@, " hours"@)
    } else if ms % 60_000 == 0 {
        units_text(ms / 60_000, "1 minute"@, " minutes"@)
    } else {
        units_text(ms / 1000, "1 second"@, " seconds"@)
    }
}

fn units(n: u64, one: &str, many: &str) -> (r: String)
    ensures
        r@ == units_text(n as int, one@, many@),
{
    if n == 1 {
        one.to_string()
    } else {
        text::concat2(text::decimal_text(n).as_str(), many)
    }
}

/// A duration in its largest whole unit.
pub fn format_duration_ms(ms: u64) -> (r: String)
    ensures
        r@ == duration_text(ms as int),
{
    if ms % 86_400_000 == 0 {
        units(ms / 86_400_000, "1 day", " days")
    } else if ms % 3_600_000 == 0 {
        units(ms / 3_600_000, "1 hour", " hours")
    } else if ms % 60_000 == 0 {
        units(ms / 60_000, "1 minute", " minutes")
    } else {
        units(ms / 1000, "1 second", " seconds")
    }
}

// ── Entries ─────────────────────────────────────────────────────────────

/// A stored prompt with its schedule.
#[derive(Debug, PartialEq, Eq)]
pub struct ScheduleEntry {
    pub id: String,
    pub key: SessionKey,
    pub prompt: String,
    pub reply_ctx: ReplyCtx,
    pub schedule: ScheduleKind,
    pub created_at_ms: i64,
    pub last_fired_ms: Option<i64>,
}

pub struct ScheduleEntryView {
    pub id: Seq<char>,
    pub key: Seq<char>,
    pub prompt: Seq<char>,
    pub reply_ctx: types::ReplyCtxView,
    pub schedule: ScheduleKind,
    pub created_at_ms: i64,
    pub last_fired_ms: Option<i64>,
}

impl View for ScheduleEntry {
    type V = ScheduleEntryView;

    open spec fn view(&self) -> ScheduleEntryView {
        ScheduleEntryView {
            id: self.id@,
            key: self.key@,
            prompt: self.prompt@,
            reply_ctx: self.reply_ctx@,
            schedule: self.schedule,
            created_at_ms: self.created_at_ms,
            last_fired_ms: self.last_fired_ms,
        }
    }
}

impl Clone for ScheduleEntry {
    fn clone(&self) -> (r: ScheduleEntry)
        ensures
            r@ == self@,
    {
        ScheduleEntry {
            id: self.id.clone(),
            key: self.key.clone(),
            prompt: self.prompt.clone(),
            reply_ctx: self.reply_ctx.clone(),
            schedule: self.schedule,
            created_at_ms: self.created_at_ms,
            last_fired_ms: self.last_fired_ms,
        }
    }
}

/// A schedule in words.
pub open spec fn schedule_text(k: ScheduleKind) -> Seq<char> {
    match k {
        ScheduleKind::Once { fire_at_ms } => "once at "@ + utc_ms_text(fire_at_ms as int),
        ScheduleKind::Recurring { interval_ms, next_fire_ms } => "every "@ + duration_text(
            interval_ms as int,
        ) + " (next: "@ + utc_ms_text(next_fire_ms as int) + ")"@,
    }
}

impl ScheduleEntry {
    /// The schedule in words.
    pub fn display_schedule(&self) -> (r: String)
        ensures
            r@ == schedule_text(self.schedule),
    {
        match self.schedule {
            ScheduleKind::Once { fire_at_ms } => text::concat2(
                "once at ",
                format_utc_ms(fire_at_ms).as_str(),
            ),
            ScheduleKind::Recurring { interval_ms, next_fire_ms } => {
                let mut out: String = text::concat3(
                    "every ",
                    format_duration_ms(interval_ms).as_str(),
                    " (next: ",
                );
                out.append(format_utc_ms(next_fire_ms).as_str());
                out.append(")");
                out
            },
        }
    }
}

// ── Ticks ───────────────────────────────────────────────────────────────

/// The views of a list of entries.
pub open spec fn entry_views(v: Seq<ScheduleEntry>) -> Seq<ScheduleEntryView> {
    Seq::new(v.len(), |i: int| v[i]@)
}

/// The entries whose time has come.
pub open spec fn due(v: Seq<ScheduleEntryView>, now: int) -> Seq<ScheduleEntryView>
    decreases v.len(),
{
    if v.len() == 0 {
        v
    } else if now >= v.last().schedule.next() {
        due(v.drop_last(), now).push(v.last())
    } else {
        due(v.drop_last(), now)
    }
}

/// The message that a due entry sends.
pub open spec fn fired_message(e: ScheduleEntryView) -> types::MessageView {
    types::MessageView {
        key: e.key,
        text: e.prompt,
        attachments: Seq::empty(),
        reply_ctx: e.reply_ctx,
        timestamp_ms: 0,
    }
}

/// The messages that due entries send, in order.
pub open spec fn fired_messages(v: Seq<ScheduleEntryView>) -> Seq<types::MessageView> {
    Seq::new(v.len(), |i: int| fired_message(v[i]))
}

/// The one-shots among due entries: they are done.
pub open spec fn completed_ids(v: Seq<ScheduleEntryView>) -> Seq<Seq<char>>
    decreases v.len(),
{
    if v.len() == 0 {
        Seq::empty()
    } else if v.last().schedule is Once {
        completed_ids(v.drop_last()).push(v.last().id)
    } else {
        completed_ids(v.drop_last())
    }
}

/// The recurring ones among due entries, with the schedule they move on to.
pub open spec fn moved_on(v: Seq<ScheduleEntryView>) -> Seq<(Seq<char>, ScheduleKind)>
    decreases v.len(),
{
    if v.len() == 0 {
        Seq::empty()
    } else if v.last().schedule is Once {
        moved_on(v.drop_last())
    } else {
        moved_on(v.drop_last()).push((v.last().id, v.last().schedule.advanced()))
    }
}

/// Every due entry is either done or moved on, and none is both.
pub proof fn due_entries_are_settled(v: Seq<ScheduleEntryView>)
    ensures
        completed_ids(v).len() + moved_on(v).len() == v.len(),
        forall|i: int|
            0 <= i < v.len() ==> if (#[trigger] v[i]).schedule is Once {
                completed_ids(v).contains(v[i].id)
            } else {
                moved_on(v).contains((v[i].id, v[i].schedule.advanced()))
            },
    decreases v.len(),
{
    if v.len() > 0 {
        let t = v.drop_last();
        due_entries_are_settled(t);
        assert forall|i: int| 0 <= i < v.len() implies (if (#[trigger] v[i]).schedule is Once {
            completed_ids(v).contains(v[i].id)
        } else {
            moved_on(v).contains((v[i].id, v[i].schedule.advanced()))
        }) by {
            if i < t.len() {
                assert(v[i] == t[i]);
                if v[i].schedule is Once {
                    let j = choose|j: int|
                        0 <= j < completed_ids(t).len() && completed_ids(t)[j] == v[i].id;
                    assert(completed_ids(v)[j] == v[i].id);
                } else {
                    let m = (v[i].id, v[i].schedule.advanced());
                    let j = choose|j: int| 0 <= j < moved_on(t).len() && moved_on(t)[j] == m;
                    assert(moved_on(v)[j] == m);
                }
            } else if v[i].schedule is Once {
                assert(completed_ids(v)[completed_ids(v).len() - 1] == v[i].id);
            } else {
                assert(moved_on(v)[moved_on(v).len() - 1] == (
                    v[i].id,
                    v[i].schedule.advanced(),
                ));
            }
        }
    }
}

/// What a tick of the scheduler asks for.
pub struct TickPlan {
    /// Messages to dispatch, in order.
    pub fire: Vec<Message>,
    /// Recurring entries, by id, with the schedule to store.
    pub moved: Vec<(String, ScheduleKind)>,
    /// One-shots to remove.
    pub completed: Vec<String>,
}

/// The views of a list of messages.
pub open spec fn message_views(v: Seq<Message>) -> Seq<types::MessageView> {
    Seq::new(v.len(), |i: int| v[i]@)
}

/// Ids with schedules.
pub open spec fn moved_views(v: Seq<(String, ScheduleKind)>) -> Seq<(Seq<char>, ScheduleKind)> {
    Seq::new(v.len(), |i: int| (v[i].0@, v[i].1))
}

/// What a tick at time `now` asks for: every due entry fires, a one-shot is
/// then removed and a recurring one moves on by one interval.
pub fn plan_tick(entries: &Vec<ScheduleEntry>, now: i64) -> (r: TickPlan)
    requires
        forall|i: int|
            0 <= i < entries@.len() ==> now >= (#[trigger] entries@[i]).schedule.next()
                ==> entries@[i].schedule.advances(),
    ensures
        ({
            let d = due(entry_views(entries@), now as int);
            &&& message_views(r.fire@) == fired_messages(d)
            &&& moved_views(r.moved@) == moved_on(d)
            &&& text::texts(r.completed@) == completed_ids(d)
        }),
{
    let ghost all = entry_views(entries@);
    let mut fire: Vec<Message> = Vec::new();
    let mut moved: Vec<(String, ScheduleKind)> = Vec::new();
    let mut completed: Vec<String> = Vec::new();
    let mut i: usize = 0;
    proof {
        let none = due(all.take(0), now as int);
        assert(none.len() == 0);
        assert(message_views(fire@) =~= fired_messages(none));
        assert(moved_views(moved@) =~= moved_on(none));
        assert(text::texts(completed@) =~= completed_ids(none));
    }
    while i < entries.len()
        invariant
            i <= entries@.len(),
            all == entry_views(entries@),
            forall|i: int|
                0 <= i < entries@.len() ==> now >= (#[trigger] entries@[i]).schedule.next()
                    ==> entries@[i].schedule.advances(),
            message_views(fire@) == fired_messages(due(all.take(i as int), now as int)),
            moved_views(moved@) == moved_on(due(all.take(i as int), now as int)),
            text::texts(completed@) == completed_ids(due(all.take(i as int), now as int)),
        decreases entries@.len() - i,
    {
        let e: &ScheduleEntry = &entries[i];
        let ghost before = due(all.take(i as int), now as int);
        let ghost after = due(all.take(i + 1), now as int);
        assert(all.take(i + 1).drop_last() =~= all.take(i as int));
        assert(all.take(i + 1).last() == e@);
        if e.schedule.should_fire(now) {
            assert(after == before.push(e@));
            assert(after.drop_last() =~= before);
            let ghost old_fire = fire@;
            fire.push(
                Message {
                    key: e.key.clone(),
                    text: e.prompt.clone(),
                    attachments: Vec::new(),
                    reply_ctx: e.reply_ctx.clone(),
                    timestamp_ms: 0,
                },
            );
            assert(fire@.last()@ == fired_message(e@));
            assert(message_views(fire@) =~= message_views(old_fire).push(fired_message(e@)));
            assert(fired_messages(after) =~= fired_messages(before).push(fired_message(e@)));
            if e.schedule.is_once() {
                let ghost old_ids = completed@;
                completed.push(e.id.clone());
                assert(text::texts(completed@) =~= text::texts(old_ids).push(e.id@));
            } else {
                let mut kind: ScheduleKind = e.schedule;
                kind.advance();
                let ghost old_moved = moved@;
                moved.push((e.id.clone(), kind));
                assert(moved_views(moved@) =~= moved_views(old_moved).push((e.id@, kind)));
            }
        }
        i = i + 1;
    }
    assert(all.take(i as int) =~= all);
    TickPlan { fire, moved, completed }
}

// ── Laws of specifications ──────────────────────────────────────────────

proof fn lemma_digits_pure(s: Seq<char>, c: char)
    requires
        text::all_digits(s),
        !text::is_digit(c),
    ensures
        !s.contains(c),
{
    if s.contains(c) {
        let i = choose|i: int| 0 <= i < s.len() && s[i] == c;
        assert(text::is_digit(s[i]));
    }
}

/// A piece without `c` behind `c` is one more piece.
proof fn lemma_one_more_piece(a: Seq<char>, b: Seq<char>, c: char)
    requires
        !b.contains(c),
    ensures
        text::split(a + seq![c] + b, c) == text::split(a, c).push(b),
    decreases b.len(),
{
    let s = a + seq![c] + b;
    if b.len() == 0 {
        assert(s.drop_last() =~= a);
        assert(s.last() == c);
        assert(b =~= Seq::<char>::empty());
    } else {
        let t = b.drop_last();
        assert forall|i: int| 0 <= i < t.len() implies t[i] != c by {
            assert(t[i] == b[i]);
        }
        assert(b[b.len() - 1] == b.last());
        lemma_one_more_piece(a, t, c);
        assert(s.drop_last() =~= a + seq![c] + t);
        assert(s.last() == b.last());
        let front = text::split(s.drop_last(), c);
        assert(front.last() == t);
        assert(t.push(b.last()) =~= b);
        assert(front.drop_last() =~= text::split(a, c));
        assert(text::split(s, c) =~= text::split(a, c).push(b));
    }
}

proof fn lemma_zeros(k: nat)
    ensures
        text::digits_value(Seq::new(k, |i: int| '0')) == 0,
    decreases k,
{
    let z = Seq::new(k, |i: int| '0');
    if k > 0 {
        let w = Seq::new((k - 1) as nat, |i: int| '0');
        lemma_zeros((k - 1) as nat);
        assert(z.drop_last() =~= w);
        assert(z.last() == '0');
    }
}

proof fn lemma_zeros_in_front(k: nat, d: Seq<char>)
    ensures
        text::digits_value(Seq::new(k, |i: int| '0') + d) == text::digits_value(d),
    decreases d.len(),
{
    let z = Seq::new(k, |i: int| '0');
    if d.len() == 0 {
        lemma_zeros(k);
        assert(z + d =~= z);
    } else {
        lemma_zeros_in_front(k, d.drop_last());
        assert((z + d).drop_last() =~= z + d.drop_last());
        assert((z + d).last() == d.last());
    }
}

/// A number that is written with zeros in front is read as that number.
proof fn lemma_padded(n: int, width: int)
    requires
        n >= 0,
    ensures
        text::padded(n, width).len() >= 1,
        text::padded(n, width).len() >= width,
        text::all_digits(text::padded(n, width)),
        text::parse_int(text::padded(n, width)) == Some(n),
{
    let d = text::decimal(n as nat);
    let s = text::padded(n, width);
    text::decimal_reads_back(n as nat);
    if d.len() < width {
        let k = (width - d.len()) as nat;
        let z = Seq::new(k, |i: int| '0');
        lemma_zeros_in_front(k, d);
        assert(s == z + d);
        assert forall|i: int| 0 <= i < s.len() implies text::is_digit(#[trigger] s[i]) by {
            if i >= k {
                assert(s[i] == d[i - k]);
            }
        }
    }
    assert(text::is_digit(s[0]));
}

/// A date and a time of day as `2025-03-05 14:00`.
pub open spec fn stamp(y: int, mo: int, d: int, h: int, m: int) -> Seq<char> {
    text::padded(y, 4) + "-"@ + text::padded(mo, 2) + "-"@ + text::padded(d, 2) + " "@
        + text::padded(h, 2) + ":"@ + text::padded(m, 2)
}

#[verifier::spinoff_prover]
#[verifier::rlimit(40)]
proof fn lemma_stamp(y: int, mo: int, d: int, h: int, m: int, now: int)
    requires
        0 <= y <= i64::MAX,
        1 <= mo <= 12,
        1 <= d <= 31,
        0 <= h < 24,
        0 <= m < 60,
    ensures
        stamp(y, mo, d, h, m).contains('-'),
        stamp(y, mo, d, h, m).len() > 0,
        text::is_digit(stamp(y, mo, d, h, m)[0]),
        text::is_digit(stamp(y, mo, d, h, m).last()),
        date_time(stamp(y, mo, d, h, m), now) == (if calendar::epoch_ms(y, mo, d, h, m) <= now {
            Err("scheduled time is in the past"@)
        } else {
            Ok(calendar::epoch_ms(y, mo, d, h, m))
        }),
{
    let (a, b, c) = (text::padded(y, 4), text::padded(mo, 2), text::padded(d, 2));
    let time = clock_text(h, m);
    reveal_strlit("-");
    reveal_strlit(" ");
    reveal_strlit(":");
    assert("-"@ =~= seq!['-']);
    assert(" "@ =~= seq![' ']);
    lemma_padded(y, 4);
    lemma_padded(mo, 2);
    lemma_padded(d, 2);
    lemma_clock_text(h, m);
    lemma_digits_pure(a, '-');
    lemma_digits_pure(b, '-');
    lemma_digits_pure(c, '-');
    let date = a + seq!['-'] + b + seq!['-'] + c;
    let s = stamp(y, mo, d, h, m);
    assert(s =~= date + seq![' '] + time);
    lemma_two_pieces(a, b, '-');
    lemma_one_more_piece(a + seq!['-'] + b, c, '-');
    assert(text::split(date, '-') =~= seq![a, b, c]);
    assert(!date.contains(' ')) by {
        if date.contains(' ') {
            let i = choose|i: int| 0 <= i < date.len() && date[i] == ' ';
            if i < a.len() {
                assert(text::is_digit(a[i]));
            } else if a.len() < i < a.len() + 1 + b.len() {
                assert(text::is_digit(b[i - a.len() - 1]));
            } else if i > a.len() + 1 + b.len() {
                assert(text::is_digit(c[i - a.len() - b.len() - 2]));
            }
        }
    }
    assert(!time.contains(' ')) by {
        if time.contains(' ') {
            let i = choose|i: int| 0 <= i < time.len() && time[i] == ' ';
            assert(text::is_digit(time[i]) || time[i] == ':');
        }
    }
    lemma_two_pieces(date, time, ' ');
    assert(s[date.len() as int] == ' ');
    assert(s.contains(' '));
    assert(s[a.len() as int] == '-');
    assert(s.contains('-'));
    assert(text::split(s, ' ')[0] == date);
    assert(s.skip(date.len() as int + 1) =~= time);
    assert(s[0] == a[0]);
    assert(s.last() == time[4]);
}

#[verifier::spinoff_prover]
proof fn lemma_dated(s: Seq<char>, now: int)
    requires
        s.contains('-'),
        s.len() > 0,
        text::is_digit(s[0]),
        text::is_digit(s.last()),
    ensures
        planned("at "@ + s, now) == (match date_time(s, now) {
            Err(e) => Err(e),
            Ok(at) => Ok(Plan::Once { at }),
        }),
{
    reveal_strlit("at ");
    reveal_strlit("in ");
    lemma_trimmed(s);
    let t = "at "@ + s;
    assert(t[0] == 'a');
    assert(t.last() == s.last());
    lemma_trimmed(t);
    assert(t.subrange(0, 3) =~= "at "@);
    assert(!text::has_prefix(t, "in "@)) by {
        assert(t.subrange(0, 3)[0] == 'a');
        assert("in "@[0] == 'i');
    }
    assert(t.skip(3) =~= s);
}

/// `at YYYY-MM-DD HH:MM` asks for that minute of that day in UTC, and the
/// schedule is shown under the date and the time that were asked for. A time that
/// is over is refused.
#[verifier::spinoff_prover]
#[verifier::rlimit(40)]
pub proof fn dated_times_are_the_ones_asked_for(
    y: int,
    mo: int,
    d: int,
    h: int,
    m: int,
    now: int,
)
    requires
        0 <= y <= i64::MAX,
        calendar::valid_date(y, mo, d),
        0 <= h < 24,
        0 <= m < 60,
    ensures
        ({
            let at = (calendar::epoch_day(y, mo, d) * 1_440 + h * 60 + m) * 60_000;
            &&& at > now ==> planned("at "@ + stamp(y, mo, d, h, m), now) == Ok::<Plan, Seq<char>>(
                Plan::Once { at },
            )
            &&& at <= now ==> planned("at "@ + stamp(y, mo, d, h, m), now) == Err::<
                Plan,
                Seq<char>,
            >("scheduled time is in the past"@)
            &&& at >= 0 ==> utc_ms_text(at) == stamp(y, mo, d, h, m) + " UTC"@
        }),
{
    let s = stamp(y, mo, d, h, m);
    calendar::valid_days_are_those_of_the_month(y, mo, d);
    calendar::minutes_follow_midnight(y, mo, d, h, m);
    lemma_stamp(y, mo, d, h, m, now);
    lemma_dated(s, now);
    if calendar::epoch_ms(y, mo, d, h, m) >= 0 {
        shown_date_is_the_date(y, mo, d, h, m);
        assert(utc_text((y, mo, d), h, m) =~= s + " UTC"@);
    }
}

/// The text of a duration of `n` units.
pub open spec fn span(n: nat, unit: char) -> Seq<char> {
    text::decimal(n).push(unit)
}

proof fn lemma_span(n: nat, unit: char)
    requires
        n <= u64::MAX,
        unit == 's' || unit == 'm' || unit == 'h' || unit == 'd',
    ensures
        span(n, unit).len() >= 2,
        text::is_digit(span(n, unit)[0]),
        text::trim(span(n, unit)) == span(n, unit),
        n > 0 ==> duration(span(n, unit)) == Ok::<int, Seq<char>>(
            n * (if unit == 's' {
                1_000int
            } else if unit == 'm' {
                60_000
            } else if unit == 'h' {
                3_600_000
            } else {
                86_400_000
            }),
        ),
        n == 0 ==> duration(span(n, unit)) == Err::<int, Seq<char>>("duration must be > 0"@),
{
    let d = text::decimal(n);
    let s = span(n, unit);
    text::decimal_reads_back(n);
    assert(text::is_digit(d[0]) && text::is_digit(d[d.len() - 1]));
    assert(s[0] == d[0]);
    assert(s.last() == unit);
    lemma_trimmed(s);
    assert(s.drop_last() =~= d);
    lemma_trimmed(d);
}

/// `in` and a number of seconds, minutes, hours or days asks for one time, that
/// long from now; `every` asks for it again and again, that far apart. A duration
/// of nothing is refused.
pub proof fn durations_are_the_ones_asked_for(n: nat, now: int)
    requires
        n <= u64::MAX,
    ensures
        n > 0 ==> planned("in "@ + span(n, 's'), now) == Ok::<Plan, Seq<char>>(
            Plan::Once { at: now + n * 1_000 },
        ),
        n > 0 ==> planned("in "@ + span(n, 'm'), now) == Ok::<Plan, Seq<char>>(
            Plan::Once { at: now + n * 60_000 },
        ),
        n > 0 ==> planned("in "@ + span(n, 'h'), now) == Ok::<Plan, Seq<char>>(
            Plan::Once { at: now + n * 3_600_000 },
        ),
        n > 0 ==> planned("in "@ + span(n, 'd'), now) == Ok::<Plan, Seq<char>>(
            Plan::Once { at: now + n * 86_400_000 },
        ),
        n > 0 ==> planned("every "@ + span(n, 's'), now) == Ok::<Plan, Seq<char>>(
            Plan::Recurring { interval: n as int * 1_000, next: now + n * 1_000 },
        ),
        n > 0 ==> planned("every "@ + span(n, 'm'), now) == Ok::<Plan, Seq<char>>(
            Plan::Recurring { interval: n as int * 60_000, next: now + n * 60_000 },
        ),
        n > 0 ==> planned("every "@ + span(n, 'h'), now) == Ok::<Plan, Seq<char>>(
            Plan::Recurring { interval: n as int * 3_600_000, next: now + n * 3_600_000 },
        ),
        n > 0 ==> planned("every "@ + span(n, 'd'), now) == Ok::<Plan, Seq<char>>(
            Plan::Recurring { interval: n as int * 86_400_000, next: now + n * 86_400_000 },
        ),
        n == 0 ==> planned("in "@ + span(n, 'm'), now) is Err && planned(
            "every "@ + span(n, 'm'),
            now,
        ) is Err,
{
    lemma_planned_span(n, 's', now);
    lemma_planned_span(n, 'm', now);
    lemma_planned_span(n, 'h', now);
    lemma_planned_span(n, 'd', now);
    lemma_span(n, 's');
    lemma_span(n, 'm');
    lemma_span(n, 'h');
    lemma_span(n, 'd');
}

#[verifier::spinoff_prover]
#[verifier::rlimit(40)]
proof fn lemma_planned_span(n: nat, unit: char, now: int)
    requires
        n <= u64::MAX,
        unit == 's' || unit == 'm' || unit == 'h' || unit == 'd',
    ensures
        planned("in "@ + span(n, unit), now) == (match duration(span(n, unit)) {
            Err(e) => Err(e),
            Ok(k) => Ok(Plan::Once { at: now + k }),
        }),
        planned("every "@ + span(n, unit), now) == (match duration(span(n, unit)) {
            Err(e) => Err(e),
            Ok(k) => Ok(Plan::Recurring { interval: k, next: now + k }),
        }),
{
    let s = span(n, unit);
    lemma_span(n, unit);
    reveal_strlit("in ");
    reveal_strlit("at ");
    reveal_strlit("every ");
    reveal_strlit("day ");
    let a = "in "@ + s;
    assert(a.last() == s.last());
    lemma_trimmed(a);
    assert(a.subrange(0, 3) =~= "in "@);
    assert(a.skip(3) =~= s);
    let b = "every "@ + s;
    assert(b.last() == s.last());
    lemma_trimmed(b);
    assert(b.subrange(0, 3)[0] == 'e' && "in "@[0] == 'i' && "at "@[0] == 'a');
    assert(!text::has_prefix(b, "in "@) && !text::has_prefix(b, "at "@));
    assert(b.subrange(0, 6) =~= "every "@);
    assert(b.skip(6) =~= s);
    assert(!text::has_prefix(s, "day "@)) by {
        if s.len() >= 4 {
            assert(s.subrange(0, 4)[0] == s[0]);
            assert("day "@[0] == 'd');
        }
    }
}

#[verifier::spinoff_prover]
proof fn lemma_refused_once(c: Seq<char>, now: int)
    requires
        c.len() > 0,
        text::is_digit(c[0]),
        text::is_digit(c.last()),
        !c.contains('-'),
        clock_time(c) is Err,
    ensures
        planned("at "@ + c, now) is Err,
{
    reveal_strlit("at ");
    reveal_strlit("in ");
    lemma_trimmed(c);
    let t = "at "@ + c;
    assert(t[0] == 'a');
    assert(t.last() == c.last());
    lemma_trimmed(t);
    assert(t.subrange(0, 3) =~= "at "@);
    assert(!text::has_prefix(t, "in "@)) by {
        assert(t.subrange(0, 3)[0] == 'a');
        assert("in "@[0] == 'i');
    }
    assert(t.skip(3) =~= c);
}

#[verifier::spinoff_prover]
proof fn lemma_refused_daily(c: Seq<char>, now: int)
    requires
        c.len() > 0,
        text::is_digit(c[0]),
        text::is_digit(c.last()),
        clock_time(c) is Err,
    ensures
        planned("every day "@ + c, now) is Err,
{
    reveal_strlit("at ");
    reveal_strlit("in ");
    reveal_strlit("every ");
    reveal_strlit("every day ");
    reveal_strlit("day ");
    lemma_trimmed(c);
    let daily = "every day "@ + c;
    let rest = "day "@ + c;
    assert(daily[0] == 'e' && rest[0] == 'd');
    assert(daily.last() == c.last() && rest.last() == c.last());
    lemma_trimmed(daily);
    lemma_trimmed(rest);
    assert(!text::has_prefix(daily, "in "@) && !text::has_prefix(daily, "at "@)) by {
        assert(daily.subrange(0, 3)[0] == 'e');
        assert("at "@[0] == 'a' && "in "@[0] == 'i');
    }
    assert(daily.subrange(0, 6) =~= "every "@);
    assert(daily.skip(6) =~= rest);
    assert(rest.subrange(0, 4) =~= "day "@);
    assert(rest.skip(4) =~= c);
}

/// A time of day that the clock never shows is refused.
#[verifier::spinoff_prover]
#[verifier::rlimit(40)]
pub proof fn impossible_clock_times_are_refused(h: int, m: int, now: int)
    requires
        0 <= h < 100,
        0 <= m < 100,
        h >= 24 || m >= 60,
    ensures
        planned("at "@ + clock_text(h, m), now) is Err,
        planned("every day "@ + clock_text(h, m), now) is Err,
{
    let c = clock_text(h, m);
    let (a, b) = (text::padded(h, 2), text::padded(m, 2));
    reveal_strlit(":");
    assert(":"@ =~= seq![':']);
    lemma_two_digits(h);
    lemma_two_digits(m);
    lemma_digits_pure(a, ':');
    lemma_digits_pure(b, ':');
    lemma_two_pieces(a, b, ':');
    assert(clock_time(c) is Err);
    assert(c[0] == a[0] && c[1] == a[1] && c[2] == ':' && c[3] == b[0] && c[4] == b[1]);
    assert(text::is_digit(a[0]) && text::is_digit(a[1]));
    assert(text::is_digit(b[0]) && text::is_digit(b[1]));
    if c.contains('-') {
        let i = choose|i: int| 0 <= i < c.len() && c[i] == '-';
        assert(i == 0 || i == 1 || i == 2 || i == 3 || i == 4);
    }
    lemma_refused_once(c, now);
    lemma_refused_daily(c, now);
}

/// A specification that starts with none of the three words is refused.
pub proof fn other_words_are_refused(input: Seq<char>, now: int)
    requires
        ({
            let t = text::trim(input);
            t.len() > 0 && t[0] != 'i' && t[0] != 'a' && t[0] != 'e'
        }),
    ensures
        planned(input, now) is Err,
{
    let t = text::trim(input);
    reveal_strlit("in ");
    reveal_strlit("at ");
    reveal_strlit("every ");
    if t.len() >= 3 {
        assert(t.subrange(0, 3)[0] == t[0]);
    }
    if t.len() >= 6 {
        assert(t.subrange(0, 6)[0] == t[0]);
    }
    assert("in "@[0] == 'i' && "at "@[0] == 'a' && "every "@[0] == 'e');
}

/// A duration is shown in its largest whole unit: days, else hours, minutes or
/// seconds, one in the singular.
pub proof fn durations_are_shown_in_whole_units(k: int)
    requires
        k >= 1,
    ensures
        duration_text(k * 86_400_000) == (if k == 1 {
            "1 day"@
        } else {
            text::decimal(k as nat) + " days"@
        }),
        k % 24 != 0 ==> duration_text(k * 3_600_000) == (if k == 1 {
            "1 hour"@
        } else {
            text::decimal(k as nat) + " hours"@
        }),
        k % 60 != 0 ==> duration_text(k * 60_000) == (if k == 1 {
            "1 minute"@
        } else {
            text::decimal(k as nat) + " minutes"@
        }),
        k % 60 != 0 ==> duration_text(k * 1_000) == (if k == 1 {
            "1 second"@
        } else {
            text::decimal(k as nat) + " seconds"@
        }),
{
    assert((k * 86_400_000) / 86_400_000 == k && (k * 86_400_000) % 86_400_000 == 0);
    assert((k * 3_600_000) / 3_600_000 == k);
    assert((k * 60_000) / 60_000 == k);
    assert((k * 1_000) / 1_000 == k);
    if k % 24 != 0 {
        assert((k * 3_600_000) % 86_400_000 == (k % 24) * 3_600_000);
    }
    if k % 60 != 0 {
        assert((k * 60_000) % 3_600_000 == (k % 60) * 60_000);
        assert((k * 60_000) % 86_400_000 != 0);
        assert((k * 1_000) % 60_000 == (k % 60) * 1_000);
        assert((k * 1_000) % 3_600_000 != 0);
        assert((k * 1_000) % 86_400_000 != 0);
    }
}

/// A schedule is shown with its next time, and how often it comes back.
pub proof fn schedules_show_their_next_time(at: i64, interval: u64)
    ensures
        schedule_text(ScheduleKind::Once { fire_at_ms: at }) == "once at "@ + utc_ms_text(at as int),
        schedule_text(ScheduleKind::Recurring { interval_ms: interval, next_fire_ms: at })
            == "every "@ + duration_text(interval as int) + " (next: "@ + utc_ms_text(at as int)
            + ")"@,
{
}

/// The entries that fire are those whose time has come, each as often as it is
/// there, in their order: none is left out and none fires early.
pub proof fn due_entries_are_those_whose_time_has_come(
    v: Seq<ScheduleEntryView>,
    now: int,
    e: ScheduleEntryView,
)
    ensures
        due(v, now).contains(e) <==> v.contains(e) && (match e.schedule {
            ScheduleKind::Once { fire_at_ms } => fire_at_ms <= now,
            ScheduleKind::Recurring { interval_ms, next_fire_ms } => next_fire_ms <= now,
        }),
        due(v, now).len() <= v.len(),
    decreases v.len(),
{
    if v.len() > 0 {
        let w = v.drop_last();
        due_entries_are_those_whose_time_has_come(w, now, e);
        let d = due(v, now);
        let f = due(w, now);
        if v.contains(e) {
            let i = choose|i: int| 0 <= i < v.len() && v[i] == e;
            if i < w.len() {
                assert(w[i] == e);
            }
        }
        if w.contains(e) {
            let i = choose|i: int| 0 <= i < w.len() && w[i] == e;
            assert(v[i] == e);
        }
        assert(v[v.len() - 1] == v.last());
        if f.contains(e) {
            let i = choose|i: int| 0 <= i < f.len() && f[i] == e;
            assert(d[i] == e);
        }
        if now >= v.last().schedule.next() {
            assert(d[d.len() - 1] == v.last());
            if d.contains(e) {
                let i = choose|i: int| 0 <= i < d.len() && d[i] == e;
                if i < f.len() {
                    assert(f[i] == e);
                }
            }
        }
    }
}

/// A due entry sends its prompt, as it was given, into its own conversation, to be
/// answered where it was asked; it is never taken for an old message.
pub proof fn fired_prompt_is_the_stored_one(v: Seq<ScheduleEntryView>, i: int)
    requires
        0 <= i < v.len(),
    ensures
        fired_messages(v).len() == v.len(),
        fired_messages(v)[i].text == v[i].prompt,
        fired_messages(v)[i].key == v[i].key,
        fired_messages(v)[i].reply_ctx == v[i].reply_ctx,
        fired_messages(v)[i].attachments.len() == 0,
        fired_messages(v)[i].timestamp_ms == 0,
{
}

/// What is done with the entries that fired: exactly the one-shots are done, and
/// exactly the others move on, each by its own interval.
pub proof fn fired_entries_are_done_or_move_on(v: Seq<ScheduleEntryView>, id: Seq<char>)
    ensures
        completed_ids(v).contains(id) ==> exists|i: int|
            0 <= i < v.len() && (#[trigger] v[i]).id == id && v[i].schedule is Once,
        forall|k: int|
            0 <= k < moved_on(v).len() ==> exists|i: int|
                0 <= i < v.len() && (#[trigger] v[i]).id == (#[trigger] moved_on(v)[k]).0 && !(
                v[i].schedule is Once) && moved_on(v)[k].1 == v[i].schedule.advanced(),
    decreases v.len(),
{
    if v.len() > 0 {
        let w = v.drop_last();
        fired_entries_are_done_or_move_on(w, id);
        assert(v[v.len() - 1] == v.last());
        if completed_ids(v).contains(id) {
            let k = choose|k: int| 0 <= k < completed_ids(v).len() && completed_ids(v)[k] == id;
            if k < completed_ids(w).len() {
                assert(completed_ids(w)[k] == id);
                let i = choose|i: int|
                    0 <= i < w.len() && (#[trigger] w[i]).id == id && w[i].schedule is Once;
                assert(v[i] == w[i]);
            }
        }
        assert forall|k: int| 0 <= k < moved_on(v).len() implies exists|i: int|
            0 <= i < v.len() && (#[trigger] v[i]).id == (#[trigger] moved_on(v)[k]).0 && !(
            v[i].schedule is Once) && moved_on(v)[k].1 == v[i].schedule.advanced() by {
            if k < moved_on(w).len() {
                assert(moved_on(w)[k] == moved_on(v)[k]);
                let i = choose|i: int|
                    0 <= i < w.len() && (#[trigger] w[i]).id == moved_on(w)[k].0 && !(
                    w[i].schedule is Once) && moved_on(w)[k].1 == w[i].schedule.advanced();
                assert(v[i] == w[i]);
            }
        }
    }
}

/// A schedule that is made is the one that was planned: the same time, or the same
/// interval and the same next time.
pub proof fn made_schedule_is_the_planned_one(at: i64, interval: u64, p: Plan, e: String)
    ensures
        as_planned(Ok(ScheduleKind::Once { fire_at_ms: at }), Ok(p)) <==> p == (Plan::Once {
            at: at as int,
        }),
        as_planned(
            Ok(ScheduleKind::Recurring { interval_ms: interval, next_fire_ms: at }),
            Ok(p),
        ) <==> p == (Plan::Recurring { interval: interval as int, next: at as int }),
        !as_planned(Err(e), Ok(p)),
        plan_fits(Ok(Plan::Once { at: at as int })),
        plan_fits(Ok(Plan::Recurring { interval: interval as int, next: at as int })),
        !plan_fits(Ok(Plan::Once { at: i64::MAX + 1 })),
{
}

/// A duration in another unit is refused.
#[verifier::spinoff_prover]
#[verifier::rlimit(40)]
pub proof fn other_units_are_refused(n: nat, unit: char, now: int)
    requires
        'a' <= unit <= 'z',
        unit != 's' && unit != 'm' && unit != 'h' && unit != 'd',
    ensures
        planned("in "@ + text::decimal(n) + seq![unit], now) is Err,
{
    let d = text::decimal(n);
    let s = d + seq![unit];
    text::decimal_reads_back(n);
    assert(text::is_digit(d[0]));
    assert(s[0] == d[0]);
    assert(s.last() == unit);
    lemma_trimmed(s);
    reveal_strlit("in ");
    let a = "in "@ + text::decimal(n) + seq![unit];
    assert(a =~= "in "@ + s);
    assert(a.last() == unit);
    lemma_trimmed(a);
    assert(a.subrange(0, 3) =~= "in "@);
    assert(a.skip(3) =~= s);
}

proof fn lemma_spaced(input: Seq<char>)
    requires
        input.len() > 0,
        !text::is_white(input[0]),
        !text::is_white(input.last()),
    ensures
        text::trim(seq![' '] + input + seq![' ']) == text::trim(input),
{
    let s = seq![' '] + input + seq![' '];
    lemma_trimmed(input);
    assert(s[0] == ' ');
    let t = s.drop_first();
    assert(t =~= input + seq![' ']);
    assert(t[0] == input[0]);
    assert(text::is_white(' '));
    assert(text::trim_start(t) == t);
    assert(text::trim_start(s) == t);
    assert(t.last() == ' ');
    assert(t.drop_last() =~= input);
    assert(text::trim_end(input) == input);
    assert(text::trim_end(t) == input);
}

/// White space round a specification says nothing.
pub proof fn space_round_a_specification_is_ignored(input: Seq<char>, now: int)
    requires
        input.len() > 0,
        !text::is_white(input[0]),
        !text::is_white(input.last()),
    ensures
        planned(seq![' '] + input + seq![' '], now) == planned(input, now),
{
    lemma_spaced(input);
}

/// What fires, what is done and what moves on keeps the order of the entries.
pub proof fn entries_keep_their_order(v: Seq<ScheduleEntryView>, e: ScheduleEntryView, now: int)
    ensures
        e.schedule.next() <= now ==> due(v.push(e), now) == due(v, now).push(e),
        e.schedule.next() > now ==> due(v.push(e), now) == due(v, now),
        e.schedule is Once ==> completed_ids(v.push(e)) == completed_ids(v).push(e.id) && moved_on(
            v.push(e),
        ) == moved_on(v),
        e.schedule matches ScheduleKind::Recurring { interval_ms, next_fire_ms } ==> next_fire_ms
            + interval_ms <= i64::MAX ==> completed_ids(v.push(e)) == completed_ids(v) && moved_on(
            v.push(e),
        ) == moved_on(v).push(
            (
                e.id,
                ScheduleKind::Recurring {
                    interval_ms,
                    next_fire_ms: (next_fire_ms + interval_ms) as i64,
                },
            ),
        ),
{
    assert(v.push(e).drop_last() =~= v);
}

} // verus!
