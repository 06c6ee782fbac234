//! The scheduler: what a tick does to the stored schedules, and how the
//! commands add and delete them.

use vstd::prelude::*;
use vstd::string::*;

use crate::builtins;
use crate::codec;
use crate::engine;
use crate::json;
use crate::schedule;
use crate::schedule::{ScheduleEntry, ScheduleEntryView, ScheduleKind, TickPlan};
use crate::store;
use crate::store::{StateDb, StoreError};
use crate::text;
use crate::types::{Message, ReplyCtx, SessionKey};

verus! {

// ── Ticks ───────────────────────────────────────────────────────────────

/// No two entries have the same id.
pub open spec fn distinct(v: Seq<ScheduleEntryView>) -> bool {
    forall|i: int, j: int|
        0 <= i < j < v.len() ==> (#[trigger] v[i]).id != (#[trigger] v[j]).id
}

/// The entries are those of the store under their ids.
pub open spec fn held(db: StateDb, v: Seq<ScheduleEntryView>) -> bool {
    distinct(v) && forall|i: int|
        0 <= i < v.len() ==> db.schedule((#[trigger] v[i]).id) == Some(v[i])
}

/// The entries that can move on: the time after their next one can be written
/// down. The others stay as they are.
pub open spec fn able(v: Seq<ScheduleEntryView>) -> Seq<ScheduleEntryView>
    decreases v.len(),
{
    if v.len() == 0 {
        v
    } else if v.last().schedule.advances() {
        able(v.drop_last()).push(v.last())
    } else {
        able(v.drop_last())
    }
}

/// What becomes of an entry that fires at time `now`: a one-shot is gone, a
/// recurring one moves on by one interval.
pub open spec fn after_firing(e: ScheduleEntryView, now: i64) -> Option<ScheduleEntryView> {
    if e.schedule is Once {
        None
    } else {
        Some(
            ScheduleEntryView {
                schedule: e.schedule.advanced(),
                last_fired_ms: Some(now),
                ..e
            },
        )
    }
}

/// From `before` to `after` the entries of `fired` were settled and nothing else
/// changed. Where the store refused a change, its entry may have stayed.
pub open spec fn settled(
    before: StateDb,
    after: StateDb,
    fired: Seq<ScheduleEntryView>,
    now: i64,
    refused: bool,
) -> bool {
    &&& after.private()
    &&& after.session_table() == before.session_table()
    &&& forall|id: Seq<char>|
        (forall|i: int| 0 <= i < fired.len() ==> (#[trigger] fired[i]).id != id)
            ==> #[trigger] after.schedule(id) == before.schedule(id)
    &&& forall|i: int|
        0 <= i < fired.len() ==> after.schedule((#[trigger] fired[i]).id) == after_firing(
            fired[i],
            now,
        ) || (refused && after.schedule(fired[i].id) == Some(fired[i]))
}

/// The changes that move entries on at time `now`.
pub open spec fn moves(moved: Seq<(Seq<char>, ScheduleKind)>, now: i64) -> Seq<store::Request> {
    Seq::new(
        moved.len(),
        |i: int|
            store::Request::MoveSchedule {
                id: moved[i].0,
                fired: now,
                kind: json::rendered(codec::kind_json(moved[i].1)),
            },
    )
}

/// The changes that settle the entries of `fired`: the recurring ones move on,
/// and the one-shots, if there are any, are removed together.
pub open spec fn settling(fired: Seq<ScheduleEntryView>, now: i64) -> Seq<store::Request> {
    let ids = schedule::completed_ids(fired);
    moves(schedule::moved_on(fired), now) + (if ids.len() > 0 {
        seq![store::Request::DropSchedules { ids }]
    } else {
        Seq::empty()
    })
}

/// What a tick did.
pub struct Ticked {
    /// Messages to dispatch, in order.
    pub fire: Vec<Message>,
    /// What the store refused.
    pub errors: Vec<StoreError>,
    /// Every stored schedule was looked at.
    pub complete: bool,
}

fn able_entries(v: Vec<ScheduleEntry>) -> (r: Vec<ScheduleEntry>)
    ensures
        schedule::entry_views(r@) == able(schedule::entry_views(v@)),
        forall|i: int| 0 <= i < r@.len() ==> (#[trigger] r@[i]).schedule.advances(),
{
    let ghost all = schedule::entry_views(v@);
    let mut out: Vec<ScheduleEntry> = Vec::new();
    let mut i: usize = 0;
    assert(schedule::entry_views(out@) =~= able(all.take(0)));
    while i < v.len()
        invariant
            i <= v@.len(),
            all == schedule::entry_views(v@),
            schedule::entry_views(out@) == able(all.take(i as int)),
            forall|j: int| 0 <= j < out@.len() ==> (#[trigger] out@[j]).schedule.advances(),
        decreases v@.len() - i,
    {
        let ghost before = schedule::entry_views(out@);
        assert(all.take(i + 1).drop_last() =~= all.take(i as int));
        if v[i].schedule.can_advance() {
            let e: ScheduleEntry = v[i].clone();
            out.push(e);
            assert(schedule::entry_views(out@) =~= before.push(all[i as int]));
        }
        i = i + 1;
    }
    assert(all.take(i as int) =~= all);
    out
}

proof fn lemma_able(v: Seq<ScheduleEntryView>)
    ensures
        forall|i: int| 0 <= i < able(v).len() ==> v.contains(#[trigger] able(v)[i]),
        distinct(v) ==> distinct(able(v)),
    decreases v.len(),
{
    if v.len() > 0 {
        let t = v.drop_last();
        let r = able(v);
        lemma_able(t);
        assert forall|i: int| 0 <= i < r.len() implies v.contains(#[trigger] r[i]) by {
            if i < able(t).len() {
                assert(r[i] == able(t)[i]);
                let k = choose|k: int| 0 <= k < t.len() && t[k] == r[i];
                assert(v[k] == r[i]);
            } else {
                assert(v[v.len() - 1] == r[i]);
            }
        }
        if distinct(v) {
            assert(distinct(t)) by {
                assert forall|i: int, j: int| 0 <= i < j < t.len() implies (#[trigger] t[i]).id != (
                #[trigger] t[j]).id by {
                    assert(v[i].id != v[j].id);
                }
            }
            assert forall|i: int, j: int| 0 <= i < j < r.len() implies (#[trigger] r[i]).id != (
            #[trigger] r[j]).id by {
                assert(r[i] == able(t)[i]);
                let k = choose|k: int| 0 <= k < t.len() && t[k] == able(t)[i];
                assert(v[k] == r[i]);
                if j < able(t).len() {
                    assert(r[j] == able(t)[j]);
                } else {
                    assert(r[j] == v[v.len() - 1]);
                }
            }
        }
    }
}

proof fn lemma_due(v: Seq<ScheduleEntryView>, now: int)
    ensures
        forall|i: int|
            0 <= i < schedule::due(v, now).len() ==> v.contains(#[trigger] schedule::due(v, now)[i]),
        distinct(v) ==> distinct(schedule::due(v, now)),
    decreases v.len(),
{
    if v.len() > 0 {
        let t = v.drop_last();
        let r = schedule::due(v, now);
        let head = schedule::due(t, now);
        lemma_due(t, now);
        assert forall|i: int| 0 <= i < r.len() implies v.contains(#[trigger] r[i]) by {
            if i < head.len() {
                assert(r[i] == head[i]);
                let k = choose|k: int| 0 <= k < t.len() && t[k] == r[i];
                assert(v[k] == r[i]);
            } else {
                assert(v[v.len() - 1] == r[i]);
            }
        }
        if distinct(v) {
            assert(distinct(t)) by {
                assert forall|i: int, j: int| 0 <= i < j < t.len() implies (#[trigger] t[i]).id != (
                #[trigger] t[j]).id by {
                    assert(v[i].id != v[j].id);
                }
            }
            assert forall|i: int, j: int| 0 <= i < j < r.len() implies (#[trigger] r[i]).id != (
            #[trigger] r[j]).id by {
                assert(r[i] == head[i]);
                let k = choose|k: int| 0 <= k < t.len() && t[k] == head[i];
                assert(v[k] == r[i]);
                if j < head.len() {
                    assert(r[j] == head[j]);
                } else {
                    assert(r[j] == v[v.len() - 1]);
                }
            }
        }
    }
}

/// An entry of `v` that moves on to `m`.
spec fn mover(v: Seq<ScheduleEntryView>, m: (Seq<char>, ScheduleKind), i: int) -> bool {
    0 <= i < v.len() && !(v[i].schedule is Once) && m == (v[i].id, v[i].schedule.advanced())
}

spec fn has_mover(v: Seq<ScheduleEntryView>, m: (Seq<char>, ScheduleKind)) -> bool {
    exists|i: int| mover(v, m, i)
}

/// A one-shot of `v` with that id.
spec fn one_shot(v: Seq<ScheduleEntryView>, id: Seq<char>, i: int) -> bool {
    0 <= i < v.len() && v[i].schedule is Once && v[i].id == id
}

spec fn has_one_shot(v: Seq<ScheduleEntryView>, id: Seq<char>) -> bool {
    exists|i: int| one_shot(v, id, i)
}

proof fn lemma_parts(v: Seq<ScheduleEntryView>)
    ensures
        forall|j: int|
            0 <= j < schedule::moved_on(v).len() ==> has_mover(
                v,
                #[trigger] schedule::moved_on(v)[j],
            ),
        forall|j: int|
            0 <= j < schedule::completed_ids(v).len() ==> has_one_shot(
                v,
                #[trigger] schedule::completed_ids(v)[j],
            ),
        distinct(v) ==> forall|j: int, k: int|
            0 <= j < k < schedule::moved_on(v).len() ==> (#[trigger] schedule::moved_on(v)[j]).0 != (
            #[trigger] schedule::moved_on(v)[k]).0,
    decreases v.len(),
{
    if v.len() > 0 {
        let t = v.drop_last();
        let moved = schedule::moved_on(v);
        let done = schedule::completed_ids(v);
        let last = v.len() - 1;
        lemma_parts(t);
        assert forall|j: int| 0 <= j < moved.len() implies has_mover(v, #[trigger] moved[j]) by {
            if j < schedule::moved_on(t).len() {
                assert(moved[j] == schedule::moved_on(t)[j]);
                assert(has_mover(t, schedule::moved_on(t)[j]));
                let i = choose|i: int| mover(t, schedule::moved_on(t)[j], i);
                assert(mover(v, moved[j], i));
            } else {
                assert(mover(v, moved[j], last));
            }
        }
        assert forall|j: int| 0 <= j < done.len() implies has_one_shot(v, #[trigger] done[j]) by {
            if j < schedule::completed_ids(t).len() {
                assert(done[j] == schedule::completed_ids(t)[j]);
                assert(has_one_shot(t, schedule::completed_ids(t)[j]));
                let i = choose|i: int| one_shot(t, schedule::completed_ids(t)[j], i);
                assert(one_shot(v, done[j], i));
            } else {
                assert(one_shot(v, done[j], last));
            }
        }
        if distinct(v) {
            assert(distinct(t)) by {
                assert forall|i: int, j: int| 0 <= i < j < t.len() implies (#[trigger] t[i]).id != (
                #[trigger] t[j]).id by {
                    assert(v[i].id != v[j].id);
                }
            }
            assert forall|j: int, k: int| 0 <= j < k < moved.len() implies (
            #[trigger] moved[j]).0 != (#[trigger] moved[k]).0 by {
                assert(moved[j] == schedule::moved_on(t)[j]);
                assert(has_mover(t, schedule::moved_on(t)[j]));
                let i = choose|i: int| mover(t, schedule::moved_on(t)[j], i);
                if k < schedule::moved_on(t).len() {
                    assert(moved[k] == schedule::moved_on(t)[k]);
                } else {
                    assert(v[i].id != v[last].id);
                }
            }
        }
    }
}

/// From `before` to `now` the first `k` of `moved` moved on and nothing else
/// changed.
spec fn moving(
    before: StateDb,
    db: StateDb,
    moved: Seq<(Seq<char>, ScheduleKind)>,
    k: int,
    now: i64,
    refused: bool,
) -> bool {
    &&& db.private()
    &&& db.session_table() == before.session_table()
    &&& forall|id: Seq<char>|
        (forall|j: int| 0 <= j < k ==> (#[trigger] moved[j]).0 != id) ==> #[trigger] db.schedule(id)
            == before.schedule(id)
    &&& forall|j: int|
        0 <= j < k ==> (before.schedule((#[trigger] moved[j]).0) matches Some(e) ==> db.schedule(
            moved[j].0,
        ) == Some(ScheduleEntryView { schedule: moved[j].1, last_fired_ms: Some(now), ..e }) || (
        refused && db.schedule(moved[j].0) == Some(e)))
}

/// Fires what is due among `entries` at time `now` and writes down what becomes
/// of it.
pub fn settle(db: &mut StateDb, entries: Vec<ScheduleEntry>, now: i64) -> (r: (
    Vec<Message>,
    Vec<StoreError>,
))
    ensures
        schedule::message_views(r.0@) == schedule::fired_messages(
            schedule::due(able(schedule::entry_views(entries@)), now as int),
        ),
        old(db).private() && held(*old(db), schedule::entry_views(entries@)) ==> settled(
            *old(db),
            *final(db),
            schedule::due(able(schedule::entry_views(entries@)), now as int),
            now,
            r.1@.len() > 0,
        ),
        final(db).asked() == old(db).asked() + settling(
            schedule::due(able(schedule::entry_views(entries@)), now as int),
            now,
        ),
{
    let ghost all = schedule::entry_views(entries@);
    let ghost fired = schedule::due(able(all), now as int);
    let ghost first = *db;
    let ghost sound = db.private() && held(*db, all);
    let able: Vec<ScheduleEntry> = able_entries(entries);
    let plan: TickPlan = schedule::plan_tick(&able, now);
    let mut errors: Vec<StoreError> = Vec::new();
    let ghost moved = schedule::moved_views(plan.moved@);
    let ghost done = text::texts(plan.completed@);
    proof {
        lemma_able(all);
        lemma_due(self::able(all), now as int);
        lemma_parts(fired);
        if sound {
            assert forall|i: int| 0 <= i < fired.len() implies first.schedule(
                (#[trigger] fired[i]).id,
            ) == Some(fired[i]) by {
                let a = self::able(all);
                let k = choose|k: int| 0 <= k < a.len() && a[k] == fired[i];
                let n = choose|n: int| 0 <= n < all.len() && all[n] == a[k];
                assert(first.schedule(all[n].id) == Some(all[n]));
            }
        }
    }
    let mut i: usize = 0;
    assert(db.asked() =~= first.asked() + moves(moved.take(0), now));
    while i < plan.moved.len()
        invariant
            i <= plan.moved@.len(),
            moved == schedule::moved_views(plan.moved@),
            db.asked() == first.asked() + moves(moved.take(i as int), now),
            sound ==> forall|j: int, k: int|
                0 <= j < k < moved.len() ==> (#[trigger] moved[j]).0 != (#[trigger] moved[k]).0,
            sound ==> moving(first, *db, moved, i as int, now, errors@.len() > 0),
        decreases plan.moved@.len() - i,
    {
        let ghost before = *db;
        let id: &str = plan.moved[i].0.as_str();
        match db.update_schedule_fired(id, now, &plan.moved[i].1) {
            Ok(()) => {},
            Err(e) => {
                errors.push(e);
            },
        }
        assert(db.asked() =~= first.asked() + moves(moved.take(i + 1), now));
        proof {
            if sound {
                assert(moved[i as int] == (id@, plan.moved@[i as int].1));
                assert(before.schedule(id@) == first.schedule(id@)) by {
                    assert forall|j: int| 0 <= j < i implies (#[trigger] moved[j]).0 != id@ by {
                        assert(moved[j].0 != moved[i as int].0);
                    }
                }
                assert forall|k: Seq<char>|
                    (forall|j: int| 0 <= j < i + 1 ==> (#[trigger] moved[j]).0 != k) implies
                    #[trigger] db.schedule(k) == first.schedule(k) by {
                    assert(moved[i as int].0 != k);
                    assert(before.schedule(k) == first.schedule(k));
                }
                assert forall|j: int| 0 <= j < i + 1 implies (first.schedule(
                    (#[trigger] moved[j]).0,
                ) matches Some(e) ==> db.schedule(moved[j].0) == Some(
                    ScheduleEntryView { schedule: moved[j].1, last_fired_ms: Some(now), ..e },
                ) || (errors@.len() > 0 && db.schedule(moved[j].0) == Some(e))) by {
                    if j < i {
                        assert(moved[j].0 != moved[i as int].0);
                        assert(db.schedule(moved[j].0) == before.schedule(moved[j].0));
                    }
                }
            }
        }
        i = i + 1;
    }
    let ghost mid = *db;
    assert(moved.take(i as int) =~= moved);
    if plan.completed.len() > 0 {
        match db.remove_schedules_by_ids(plan.completed.as_slice()) {
            Ok(()) => {},
            Err(e) => {
                errors.push(e);
            },
        }
    }
    proof {
        if sound {
            assert(done == schedule::completed_ids(fired));
            assert(moved == schedule::moved_on(fired));
            schedule::due_entries_are_settled(fired);
            assert forall|id: Seq<char>|
                (forall|i: int| 0 <= i < fired.len() ==> (#[trigger] fired[i]).id != id) implies
                #[trigger] db.schedule(id) == first.schedule(id) by {
                assert forall|j: int| 0 <= j < moved.len() implies (#[trigger] moved[j]).0 != id by {
                    assert(has_mover(fired, moved[j]));
                    let i = choose|i: int| mover(fired, moved[j], i);
                    assert(fired[i].id != id);
                }
                assert(mid.schedule(id) == first.schedule(id));
                assert(!done.contains(id)) by {
                    if done.contains(id) {
                        let j = choose|j: int| 0 <= j < done.len() && done[j] == id;
                        assert(has_one_shot(fired, done[j]));
                        let i = choose|i: int| one_shot(fired, done[j], i);
                        assert(fired[i].id != id);
                    }
                }
            }
            assert forall|i: int| 0 <= i < fired.len() implies db.schedule(
                (#[trigger] fired[i]).id,
            ) == after_firing(fired[i], now) || (errors@.len() > 0 && db.schedule(fired[i].id)
                == Some(fired[i])) by {
                let e = fired[i];
                if e.schedule is Once {
                    assert(done.contains(e.id));
                    assert forall|j: int| 0 <= j < moved.len() implies (#[trigger] moved[j]).0
                        != e.id by {
                        assert(has_mover(fired, moved[j]));
                        let k = choose|k: int| mover(fired, moved[j], k);
                        if k < i {
                            assert(fired[k].id != fired[i].id);
                        } else {
                            assert(fired[i].id != fired[k].id);
                        }
                    }
                    assert(mid.schedule(e.id) == first.schedule(e.id));
                } else {
                    let m = (e.id, e.schedule.advanced());
                    let j = choose|j: int| 0 <= j < moved.len() && moved[j] == m;
                    assert(moved[j].0 == e.id);
                    assert(!done.contains(e.id)) by {
                        if done.contains(e.id) {
                            let n = choose|n: int| 0 <= n < done.len() && done[n] == e.id;
                            assert(has_one_shot(fired, done[n]));
                            let k = choose|k: int| one_shot(fired, done[n], k);
                            if k < i {
                                assert(fired[k].id != fired[i].id);
                            } else {
                                assert(fired[i].id != fired[k].id);
                            }
                        }
                    }
                    assert(db.schedule(e.id) == mid.schedule(e.id));
                }
            }
        }
    }
    assert(db.asked() =~= first.asked() + settling(fired, now));
    (plan.fire, errors)
}

/// A tick at time `now` that looked at the entries `v` of the store did `r`.
pub open spec fn ticks(
    before: StateDb,
    after: StateDb,
    v: Seq<ScheduleEntryView>,
    now: i64,
    r: Ticked,
) -> bool {
    let fired = schedule::due(able(v), now as int);
    &&& schedule::message_views(r.fire@) == schedule::fired_messages(fired)
    &&& after.asked() == before.asked() + settling(fired, now)
    &&& before.private() ==> {
        &&& held(before, v)
        &&& settled(before, after, fired, now, r.errors@.len() > 0)
        &&& r.complete ==> forall|id: Seq<char>| #[trigger]
            before.schedule(id) is Some ==> exists|i: int|
                0 <= i < v.len() && (#[trigger] v[i]).id == id
    }
}

/// Fires the stored schedules that are due at time `now`.
pub fn tick(db: &mut StateDb, now: i64) -> (r: Ticked)
    ensures
        exists|v: Seq<ScheduleEntryView>| #[trigger]
            ticks(*old(db), *final(db), v, now, r),
{
    let ghost first = *db;
    let (entries, complete): (Vec<ScheduleEntry>, bool) = match db.find_schedules() {
        Ok(l) => {
            let complete: bool = l.unreadable == 0;
            (l.entries, complete)
        },
        Err(_) => (Vec::new(), false),
    };
    let ghost v = schedule::entry_views(entries@);
    proof {
        if first.private() {
            assert forall|i: int| 0 <= i < v.len() implies first.schedule((#[trigger] v[i]).id)
                == Some(v[i]) by {
                assert(entries@[i]@ == v[i]);
            }
            assert forall|i: int, j: int| 0 <= i < j < v.len() implies (#[trigger] v[i]).id != (
            #[trigger] v[j]).id by {
                assert(entries@[i].id@ != entries@[j].id@);
            }
            if complete {
                assert forall|id: Seq<char>| #[trigger] first.schedule(id) is Some implies exists|
                    i: int,
                | 0 <= i < v.len() && (#[trigger] v[i]).id == id by {
                    let i = choose|i: int| 0 <= i < entries@.len() && (#[trigger] entries@[i]).id@ == id;
                    assert(v[i].id == id);
                }
            }
        }
    }
    let (fire, errors): (Vec<Message>, Vec<StoreError>) = settle(db, entries, now);
    let r: Ticked = Ticked { fire, errors, complete };
    assert(ticks(first, *db, v, now, r));
    r
}

proof fn lemma_able_kept(v: Seq<ScheduleEntryView>, i: int)
    requires
        0 <= i < v.len(),
        v[i].schedule.advances(),
    ensures
        able(v).contains(v[i]),
    decreases v.len(),
{
    let t = v.drop_last();
    if i < t.len() {
        lemma_able_kept(t, i);
        let k = choose|k: int| 0 <= k < able(t).len() && able(t)[k] == v[i];
        assert(able(v)[k] == v[i]);
    } else {
        assert(able(v)[able(v).len() - 1] == v[i]);
    }
}

proof fn lemma_due_kept(v: Seq<ScheduleEntryView>, now: int, i: int)
    requires
        0 <= i < v.len(),
        now >= v[i].schedule.next(),
    ensures
        schedule::due(v, now).contains(v[i]),
    decreases v.len(),
{
    let t = v.drop_last();
    let r = schedule::due(v, now);
    if i < t.len() {
        lemma_due_kept(t, now, i);
        let head = schedule::due(t, now);
        let k = choose|k: int| 0 <= k < head.len() && head[k] == v[i];
        assert(r[k] == v[i]);
    } else {
        assert(r[r.len() - 1] == v[i]);
    }
}

proof fn lemma_due_only(v: Seq<ScheduleEntryView>, now: int)
    ensures
        forall|i: int|
            0 <= i < schedule::due(v, now).len() ==> now >= (#[trigger] schedule::due(
                v,
                now,
            )[i]).schedule.next(),
    decreases v.len(),
{
    if v.len() > 0 {
        let head = schedule::due(v.drop_last(), now);
        let r = schedule::due(v, now);
        lemma_due_only(v.drop_last(), now);
        assert forall|i: int| 0 <= i < r.len() implies now >= (#[trigger] r[i]).schedule.next() by {
            if i < head.len() {
                assert(r[i] == head[i]);
            }
        }
    }
}

/// A tick that looked at every schedule fires each one that is due and settles
/// it, unless the store refused a change.
pub proof fn due_schedules_fire(
    before: StateDb,
    after: StateDb,
    v: Seq<ScheduleEntryView>,
    now: i64,
    r: Ticked,
    e: ScheduleEntryView,
)
    requires
        before.private(),
        ticks(before, after, v, now, r),
        r.complete,
        before.schedule(e.id) == Some(e),
        now >= e.schedule.next(),
        e.schedule.advances(),
    ensures
        schedule::message_views(r.fire@).contains(schedule::fired_message(e)),
        r.errors@.len() == 0 ==> after.schedule(e.id) == after_firing(e, now),
{
    let fired = schedule::due(able(v), now as int);
    let i = choose|i: int| 0 <= i < v.len() && (#[trigger] v[i]).id == e.id;
    assert(before.schedule(v[i].id) == Some(v[i]));
    lemma_able_kept(v, i);
    let k = choose|k: int| 0 <= k < able(v).len() && able(v)[k] == e;
    lemma_due_kept(able(v), now as int, k);
    let n = choose|n: int| 0 <= n < fired.len() && fired[n] == e;
    assert(schedule::fired_messages(fired)[n] == schedule::fired_message(e));
    assert(fired[n].id == e.id);
}

/// A tick leaves the schedules alone that are not due.
pub proof fn other_schedules_stay(
    before: StateDb,
    after: StateDb,
    v: Seq<ScheduleEntryView>,
    now: i64,
    r: Ticked,
    e: ScheduleEntryView,
)
    requires
        before.private(),
        ticks(before, after, v, now, r),
        before.schedule(e.id) == Some(e),
        now < e.schedule.next(),
    ensures
        after.schedule(e.id) == Some(e),
{
    let fired = schedule::due(able(v), now as int);
    lemma_able(v);
    lemma_due(able(v), now as int);
    lemma_due_only(able(v), now as int);
    assert forall|i: int| 0 <= i < fired.len() implies (#[trigger] fired[i]).id != e.id by {
        let k = choose|k: int| 0 <= k < able(v).len() && able(v)[k] == fired[i];
        let n = choose|n: int| 0 <= n < v.len() && v[n] == able(v)[k];
        assert(before.schedule(v[n].id) == Some(v[n]));
    }
}

// ── Commands ────────────────────────────────────────────────────────────

/// From `before` to `after` the schedule `e` was added under an id of its own,
/// and nothing else changed. It is read back as it was, unless its reply
/// context holds extras that JSON text does not keep.
pub open spec fn adds(before: StateDb, after: StateDb, e: ScheduleEntryView) -> bool {
    &&& !before.schedule_table().contains_key(e.id)
    &&& before.only_schedule_changed(after, e.id)
    &&& json::canonical(e.reply_ctx.extra, 99) ==> after.schedule(e.id) == Some(e)
}

/// What the answer `r` to a `/schedule` command that came to `made` says of the
/// store: an entry was to be added, and was where that is said.
pub open spec fn answers(
    before: StateDb,
    after: StateDb,
    made: Result<ScheduleEntry, String>,
    r: Result<String, StoreError>,
) -> bool {
    match made {
        Ok(e) => {
            &&& after.asked() == before.asked().push(
                store::Request::AddSchedule { id: e.id@, schedule: store::row_of_schedule(e@) },
            )
            &&& match r {
                Ok(t) => t@ == builtins::added_text(e@) && (before.private() ==> adds(
                    before,
                    after,
                    e@,
                )),
                Err(_) => before.private() ==> before.unchanged(after),
            }
        },
        Err(m) => after == before && (r matches Ok(t) && t@ == "invalid schedule: "@ + m@),
    }
}

/// Stores the schedule that a `/schedule` command asks for. The result is the
/// answer to it.
pub fn store_schedule(db: &mut StateDb, made: Result<ScheduleEntry, String>) -> (r: Result<
    String,
    StoreError,
>)
    ensures
        answers(*old(db), *final(db), made, r),
{
    match made {
        Ok(e) => match db.add_schedule(&e) {
            Ok(()) => Ok(builtins::added_reply(&e)),
            Err(error) => Err(error),
        },
        Err(m) => Ok(builtins::invalid_reply(m.as_str())),
    }
}

/// Carries out `/schedule` at the time of the call. The result is the answer to
/// it.
pub fn add_schedule(
    db: &mut StateDb,
    key: &SessionKey,
    reply_ctx: &ReplyCtx,
    when: &str,
    prompt: String,
) -> (r: Result<String, StoreError>)
    ensures
        exists|made: Result<ScheduleEntry, String>| #[trigger]
            engine::schedule_made(key@, reply_ctx@, when@, prompt@, made) && answers(
                *old(db),
                *final(db),
                made,
                r,
            ),
{
    let made: Result<ScheduleEntry, String> = engine::new_schedule(key, reply_ctx, when, prompt);
    let ghost m = made;
    let r: Result<String, StoreError> = store_schedule(db, made);
    assert(engine::schedule_made(key@, reply_ctx@, when@, prompt@, m));
    r
}

/// From `before` to `after` the schedule at `at` in `v` was deleted, and `r` is
/// the answer to that.
pub open spec fn deletes(
    before: StateDb,
    after: StateDb,
    key: Seq<char>,
    v: Seq<ScheduleEntry>,
    at: Option<usize>,
    prefix: Seq<char>,
    r: Result<String, StoreError>,
) -> bool {
    match at {
        None => after == before && (r matches Ok(t) && t@ == builtins::deleted_text(prefix, false)),
        Some(i) => {
            let id = v[i as int].id@;
            &&& after.asked() == before.asked().push(store::Request::DropSchedule { key, id })
            &&& before.private() ==> match r {
                Ok(t) => {
                    let found = store::owned_row(before.schedule_table(), id, key);
                    &&& t@ == builtins::deleted_text(prefix, found)
                    &&& before.only_schedule_changed(after, id)
                    &&& found ==> after.schedule(id) is None
                    &&& !found ==> before.unchanged(after)
                },
                Err(_) => before.unchanged(after),
            }
        },
    }
}

/// Deletes the first schedule of `entries` whose id starts with `prefix`. The
/// result is the answer to `/schedule-delete`.
pub fn delete_first(
    db: &mut StateDb,
    key: &SessionKey,
    entries: &Vec<ScheduleEntry>,
    prefix: &str,
) -> (r: Result<String, StoreError>)
    ensures
        exists|at: Option<usize>| #[trigger]
            builtins::finds(entries@, prefix@, at) && deletes(
                *old(db),
                *final(db),
                key@,
                entries@,
                at,
                prefix@,
                r,
            ),
{
    let at: Option<usize> = builtins::schedule_by_prefix(entries, prefix);
    assert(builtins::finds(entries@, prefix@, at));
    match at {
        None => Ok(builtins::deleted_reply(prefix, false)),
        Some(i) => match db.remove_schedule(key, entries[i].id.as_str()) {
            Ok(found) => Ok(builtins::deleted_reply(prefix, found)),
            Err(error) => Err(error),
        },
    }
}

/// The entries are schedules of that conversation in the store.
pub open spec fn owns(db: StateDb, key: Seq<char>, v: Seq<ScheduleEntry>) -> bool {
    forall|i: int|
        0 <= i < v.len() ==> (#[trigger] v[i]).key@ == key && (db.private() ==> db.schedule(v[i].id@)
            == Some(v[i]@))
}

/// Carries out `/schedule-delete`. The result is the answer to it.
pub fn delete_schedule(db: &mut StateDb, key: &SessionKey, prefix: &str) -> (r: Result<
    String,
    StoreError,
>)
    ensures
        exists|v: Seq<ScheduleEntry>, at: Option<usize>|
            owns(*old(db), key@, v) && #[trigger] builtins::finds(v, prefix@, at) && deletes(
                *old(db),
                *final(db),
                key@,
                v,
                at,
                prefix@,
                r,
            ),
{
    let entries: Vec<ScheduleEntry> = db.list_schedules(key);
    assert(owns(*db, key@, entries@));
    delete_first(db, key, &entries, prefix)
}

/// A schedule of a conversation that `/schedule-delete` finds is gone afterwards,
/// if the store lets it go.
pub proof fn found_schedule_is_deleted(
    before: StateDb,
    after: StateDb,
    key: Seq<char>,
    v: Seq<ScheduleEntry>,
    i: usize,
    prefix: Seq<char>,
    r: Result<String, StoreError>,
)
    requires
        before.private(),
        owns(before, key, v),
        builtins::finds(v, prefix, Some(i)),
        deletes(before, after, key, v, Some(i), prefix, r),
        r is Ok,
    ensures
        after.schedule(v[i as int].id@) is None,
        r->Ok_0@ == builtins::deleted_text(prefix, true),
{
    let e = v[i as int];
    assert(before.schedule(e.id@) == Some(e@));
    assert(e.key@ == key);
}

// ── Laws ────────────────────────────────────────────────────────────────

/// A schedule that fired once is gone. One that comes back is the same but for the
/// time at which it fired and its next time, which is one interval later.
pub proof fn fired_schedule_moves_on(e: ScheduleEntryView, now: i64, at: i64, interval: u64)
    ensures
        e.schedule == (ScheduleKind::Once { fire_at_ms: at }) ==> after_firing(e, now) is None,
        e.schedule == (ScheduleKind::Recurring { interval_ms: interval, next_fire_ms: at }) && at
            + interval <= i64::MAX ==> (after_firing(e, now) matches Some(n) && n.id == e.id
            && n.key == e.key && n.prompt == e.prompt && n.reply_ctx == e.reply_ctx
            && n.created_at_ms == e.created_at_ms && n.last_fired_ms == Some(now) && (n.schedule
            matches ScheduleKind::Recurring { interval_ms, next_fire_ms } && interval_ms == interval
            && next_fire_ms == at + interval)),
{
}

/// An entry is left out of a tick only if it comes back at a time that cannot be
/// written down.
pub proof fn able_entries_are_those_that_can_move_on(v: Seq<ScheduleEntryView>, e: ScheduleEntryView)
    requires
        v.contains(e),
    ensures
        able(v).contains(e) <==> (match e.schedule {
            ScheduleKind::Once { fire_at_ms } => true,
            ScheduleKind::Recurring { interval_ms, next_fire_ms } => next_fire_ms + interval_ms
                <= i64::MAX && interval_ms <= i64::MAX,
        }),
    decreases v.len(),
{
    let i = choose|i: int| 0 <= i < v.len() && v[i] == e;
    if e.schedule.advances() {
        lemma_able_kept(v, i);
    } else {
        lemma_only_able(v);
        if able(v).contains(e) {
            let k = choose|k: int| 0 <= k < able(v).len() && able(v)[k] == e;
            assert(able(v)[k].schedule.advances());
        }
    }
}

proof fn lemma_only_able(v: Seq<ScheduleEntryView>)
    ensures
        forall|k: int| 0 <= k < able(v).len() ==> (#[trigger] able(v)[k]).schedule.advances(),
    decreases v.len(),
{
    if v.len() > 0 {
        lemma_only_able(v.drop_last());
    }
}

/// What is asked of the database after a tick: to move each schedule that comes
/// back, and to drop those that are done, if there are any.
pub proof fn settling_moves_and_drops(fired: Seq<ScheduleEntryView>, now: i64)
    ensures
        ({
            let moved = schedule::moved_on(fired);
            let done = schedule::completed_ids(fired);
            let s = settling(fired, now);
            &&& s.len() == moved.len() + (if done.len() > 0 {
                1int
            } else {
                0
            })
            &&& forall|i: int|
                0 <= i < moved.len() ==> #[trigger] s[i] == (store::Request::MoveSchedule {
                    id: moved[i].0,
                    fired: now,
                    kind: json::rendered(codec::kind_json(moved[i].1)),
                })
            &&& done.len() > 0 ==> s.last() == (store::Request::DropSchedules { ids: done })
        }),
{
}

/// A schedule that was made is stored and answered with its id; one that was
/// refused is answered with the reason, and nothing is stored.
pub proof fn made_schedule_is_stored(
    before: StateDb,
    after: StateDb,
    made: Result<ScheduleEntry, String>,
    r: Result<String, StoreError>,
)
    requires
        before.private(),
        answers(before, after, made, r),
    ensures
        made matches Err(m) ==> after == before && (r matches Ok(t) && t@ == "invalid schedule: "@
            + m@),
        made matches Ok(e) ==> (r matches Ok(t) ==> t@ == "scheduled (id="@ + builtins::short_id(
            e.id@,
        ) + "): "@ + schedule::schedule_text(e.schedule)),
        made matches Ok(e) ==> (r is Ok && json::canonical(e@.reply_ctx.extra, 99)
            ==> after.schedule(e.id@) == Some(e@)),
        made matches Ok(e) ==> (r is Err ==> forall|id: Seq<char>| #[trigger]
            after.schedule(id) == before.schedule(id)),
{
}

/// The entries of a tick keep their order.
pub proof fn able_entries_keep_their_order(v: Seq<ScheduleEntryView>, e: ScheduleEntryView)
    ensures
        e.schedule.advances() ==> able(v.push(e)) == able(v).push(e),
        !e.schedule.advances() ==> able(v.push(e)) == able(v),
{
    assert(v.push(e).drop_last() =~= v);
}

} // verus!
