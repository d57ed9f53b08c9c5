//! What is stored when: sessions that end, the session that goes on, and the
//! requests of the user. What is worked out here are the changes to make; the
//! worker that holds the connection makes them one after the other.

use vstd::prelude::*;

use crate::db;
use crate::db::{
    count_pending, end_of_session, get_active, list_active, list_sessions, mark_push_failed, mark_synced,
    open_row, open_session_at, DbValue, PushStatus, SessionChange, SessionRow,
};
use crate::identity;
use crate::identity::resolver::UserMapping;
use crate::identity::{GameIdentity, IgnoredIdentity, ManualGame};
use crate::live_session;
use crate::live_session::{LiveSession, PendingEnd, SLEEP_SPLIT};
use crate::text;
use crate::text::{join2, same};
use crate::time;
use crate::time::Timestamp;

verus! {

/// How long one operation on the database may take, in seconds.
pub const DB_OP_TIMEOUT: u64 = 2;

/// How long opening the database may take, in seconds.
pub const DB_OPEN_TIMEOUT: u64 = 5;

/// How long to wait before the database is opened again, in seconds.
pub const RECONNECT_BACKOFF: u64 = 5;

/// Why the connection is given up.
#[derive(Debug)]
pub enum PersistError {
    /// An operation failed or took too long.
    Poison(String),
    /// The database is to be another one.
    PathChanged,
}

/// What the user is told of the outcome of a request.
pub open spec fn reply(res: Result<(), PersistError>) -> Result<(), Seq<char>> {
    match res {
        Ok(()) => Ok(()),
        Err(PersistError::Poison(e)) => Err(e@),
        Err(PersistError::PathChanged) => Err("db path changed"@),
    }
}

/// What the user is told of the outcome of a request.
pub fn persist_reply(res: &Result<(), PersistError>) -> (r: Result<(), String>)
    ensures
        match r {
            Ok(()) => reply(*res) == Ok::<(), Seq<char>>(()),
            Err(e) => reply(*res) == Err::<(), Seq<char>>(e@),
        },
{
    match res {
        Ok(()) => Ok(()),
        Err(PersistError::Poison(e)) => Err(e.clone()),
        Err(PersistError::PathChanged) => Err("db path changed".to_owned()),
    }
}

/// The outcome of an operation that had a time limit: none where it ran out.
pub open spec fn timed_outcome<T>(res: Option<Result<T, String>>) -> Result<T, Seq<char>> {
    match res {
        Some(Ok(v)) => Ok(v),
        Some(Err(e)) => Err(e@),
        None => Err("db op timeout"@),
    }
}

/// The outcome of an operation that had a time limit, which is `None` where the
/// time ran out: an operation that fails poisons the connection.
pub fn timed<T>(res: Option<Result<T, String>>) -> (r: Result<T, PersistError>)
    ensures
        match r {
            Ok(v) => timed_outcome(res) == Ok::<T, Seq<char>>(v),
            Err(PersistError::Poison(e)) => timed_outcome(res) == Err::<T, Seq<char>>(e@),
            Err(PersistError::PathChanged) => false,
        },
{
    match res {
        Some(Ok(v)) => Ok(v),
        Some(Err(e)) => Err(PersistError::Poison(e)),
        None => Err(PersistError::Poison("db op timeout".to_owned())),
    }
}

// ---------------------------------------------------------------------------
// Ending sessions
// ---------------------------------------------------------------------------

/// The changes that end those of the rows for which `f` holds, each at its time.
pub open spec fn ends_for(
    rows: Seq<db::RowView>,
    f: spec_fn(db::RowView) -> bool,
    at: spec_fn(db::RowView) -> int,
    now: int,
) -> Seq<db::ChangeView>
    decreases rows.len(),
{
    if rows.len() == 0 {
        Seq::empty()
    } else {
        let before = ends_for(rows.drop_last(), f, at, now);
        let r = rows.last();
        match db::end_change(r, at(r), now) {
            Some(c) => if f(r) {
                before.push(c)
            } else {
                before
            },
            None => before,
        }
    }
}

/// Some row is of the identity.
pub open spec fn has_identity(rows: Seq<db::RowView>, identity_id: Seq<char>) -> bool {
    exists|i: int| 0 <= i < rows.len() && (#[trigger] rows[i]).identity_id == identity_id
}

/// The row that the ended session has is known and goes on.
pub open spec fn linked_goes_on(e: live_session::EndView, linked: Option<db::RowView>) -> bool {
    e.db_session_id is Some && linked is Some && linked->0.push_status == PushStatus::Active
}

/// The changes that store the end of a session: its own row ends, if it goes on;
/// else all rows of the game that go on; else, where there is none, a row is made
/// and ended. `linked` is the row with the session's row id, `actives` are the
/// rows that go on, and `new_id` is for a new row.
pub open spec fn end_plan(
    e: live_session::EndView,
    linked: Option<db::RowView>,
    actives: Seq<db::RowView>,
    new_id: Seq<char>,
    now: int,
) -> Seq<db::ChangeView> {
    if linked_goes_on(e, linked) {
        seq![db::end_change(linked->0, e.ended_at, now)->0]
    } else if has_identity(actives, e.identity.id) {
        ends_for(
            actives,
            |r: db::RowView| r.identity_id == e.identity.id,
            |r: db::RowView| e.ended_at,
            now,
        )
    } else {
        let row = db::opened(e.identity, e.started_at, new_id);
        seq![db::ChangeView::Insert(row), db::end_change(row, e.ended_at, now)->0]
    }
}

fn push_change(changes: &mut Vec<SessionChange>, c: SessionChange)
    ensures
        db::change_views(final(changes)@) == db::change_views(old(changes)@).push(c@),
{
    let ghost was = changes@;
    changes.push(c);
    assert(db::change_views(changes@) == db::change_views(was).push(c@));
}

/// The changes that store the end of a session.
pub fn write_pending_end(
    end: &PendingEnd,
    linked: &Option<SessionRow>,
    actives: &Vec<SessionRow>,
    new_id: String,
    now: Timestamp,
) -> (r: Vec<SessionChange>)
    ensures
        db::change_views(r@) == end_plan(
            end@,
            match *linked {
                Some(row) => Some(row@),
                None => None,
            },
            db::row_views(actives@),
            new_id@,
            now@,
        ),
{
    let mut changes: Vec<SessionChange> = Vec::new();
    assert(db::change_views(changes@) == Seq::<db::ChangeView>::empty());
    if end.db_session_id.is_some() {
        if let Some(row) = linked {
            if let Some(c) = end_of_session(row, end.ended_at, now) {
                push_change(&mut changes, c);
                assert(db::change_views(changes@) == seq![c@]);
                return changes;
            }
        }
    }
    let ghost v = db::row_views(actives@);
    let ghost f = |r: db::RowView| r.identity_id == end@.identity.id;
    let ghost at = |r: db::RowView| end@.ended_at;
    let mut found = false;
    let mut i: usize = 0;
    while i < actives.len()
        invariant
            i <= actives@.len(),
            v == db::row_views(actives@),
            f == (|r: db::RowView| r.identity_id == end@.identity.id),
            at == (|r: db::RowView| end@.ended_at),
            found == exists|j: int| 0 <= j < i && (#[trigger] v[j]).identity_id == end@.identity.id,
            db::change_views(changes@) == ends_for(v.take(i as int), f, at, now@),
        decreases actives.len() - i,
    {
        assert(v.take(i + 1).drop_last() == v.take(i as int));
        assert(v.take(i + 1).last() == actives@[i as int]@);
        assert(v[i as int] == actives@[i as int]@);
        if same(actives[i].identity_id.as_str(), end.identity.id.as_str()) {
            found = true;
            if let Some(c) = end_of_session(&actives[i], end.ended_at, now) {
                push_change(&mut changes, c);
            }
        }
        i = i + 1;
    }
    assert(v.take(i as int) == v);
    if !found {
        assert(!has_identity(v, end@.identity.id));
        proof {
            lemma_no_ends(v, f, at, now@);
        }
        let ghost id = new_id@;
        let row = open_row(&end.identity, end.started_at, new_id);
        let c = end_of_session(&row, end.ended_at, now);
        push_change(&mut changes, SessionChange::Insert(row));
        if let Some(c) = c {
            push_change(&mut changes, c);
        }
        assert(db::change_views(changes@) == end_plan(
            end@,
            match *linked {
                Some(row) => Some(row@),
                None => None,
            },
            v,
            id,
            now@,
        ));
    }
    changes
}

proof fn lemma_no_ends(
    rows: Seq<db::RowView>,
    f: spec_fn(db::RowView) -> bool,
    at: spec_fn(db::RowView) -> int,
    now: int,
)
    requires
        forall|i: int| 0 <= i < rows.len() ==> !f(#[trigger] rows[i]),
    ensures
        ends_for(rows, f, at, now) == Seq::<db::ChangeView>::empty(),
    decreases rows.len(),
{
    if rows.len() > 0 {
        assert(!f(rows[rows.len() - 1]));
        lemma_no_ends(rows.drop_last(), f, at, now);
    }
}

// ---------------------------------------------------------------------------
// The session that goes on
// ---------------------------------------------------------------------------

/// The changes that delete the rows of an identity but for the one at `keep`.
pub open spec fn discards_for(
    rows: Seq<db::RowView>,
    identity_id: Seq<char>,
    keep: int,
) -> Seq<db::ChangeView>
    decreases rows.len(),
{
    if rows.len() == 0 {
        Seq::empty()
    } else {
        let before = discards_for(rows.drop_last(), identity_id, keep);
        let r = rows.last();
        if r.identity_id == identity_id && rows.len() - 1 != keep {
            before.push(db::ChangeView::Discard { id: r.id })
        } else {
            before
        }
    }
}

/// When a session ends of which nothing is known but its start: now, but no
/// later than the longest gap after its start.
pub open spec fn orphan_end(started_at: int, now: int) -> int {
    let cap = time::plus(started_at, SLEEP_SPLIT as int);
    if now < cap {
        now
    } else {
        cap
    }
}

/// The game that is being played, as it is in memory.
#[verifier::ext_equal]
pub struct Playing {
    pub identity: Option<identity::IdentityView>,
    pub started_at: Option<int>,
    pub last_seen_at: Option<int>,
    pub last_tick_at: Option<int>,
}

/// The row of the game that is being played.
pub open spec fn played_row(
    p: Playing,
    actives: Seq<db::RowView>,
    new_id: Seq<char>,
    now: int,
) -> db::RowView {
    db::session_row(
        actives,
        p.identity->0,
        match p.started_at {
            Some(t) => t,
            None => now,
        },
        new_id,
    )
}

/// The changes that bring the stored sessions in line with the game that is being
/// played. The game's row is the oldest of its rows that go on, or a new one;
/// the other rows of the game are deleted; rows of other games end when the game
/// was last seen. Without a game, all rows end, once there has been a sample.
pub open spec fn reconcile_plan(
    p: Playing,
    actives: Seq<db::RowView>,
    new_id: Seq<char>,
    now: int,
) -> Seq<db::ChangeView> {
    match p.identity {
        Some(i) => {
            let row = played_row(p, actives, new_id, now);
            let last_seen = match p.last_seen_at {
                Some(t) => t,
                None => row.started_at,
            };
            let ends = ends_for(
                actives,
                |r: db::RowView| r.identity_id != i.id,
                |r: db::RowView| last_seen,
                now,
            );
            match db::oldest_of(actives, i.id) {
                Some(k) => ends + discards_for(actives, i.id, k),
                None => seq![db::ChangeView::Insert(row)] + ends,
            }
        },
        None => if p.last_tick_at is Some {
            ends_for(
                actives,
                |r: db::RowView| true,
                |r: db::RowView| orphan_end(r.started_at, now),
                now,
            )
        } else {
            Seq::empty()
        },
    }
}

/// The id and the beginning of the session that goes on.
pub open spec fn kept_session(
    p: Playing,
    actives: Seq<db::RowView>,
    new_id: Seq<char>,
    now: int,
) -> Option<(Seq<char>, int)> {
    if p.identity is Some {
        let row = played_row(p, actives, new_id, now);
        Some((row.id, row.started_at))
    } else {
        None
    }
}

/// When a session ends of which nothing is known but its start.
fn orphan_end_of(started_at: &Timestamp, now: &Timestamp) -> (r: Timestamp)
    ensures
        r@ == orphan_end(started_at@, now@),
{
    started_at.plus_seconds_until(SLEEP_SPLIT as u32, now)
}

/// The changes that bring the stored sessions in line with the game that is being
/// played, and the id and the beginning of its session.
pub fn reconcile_live(
    identity: &Option<GameIdentity>,
    started_at: Option<Timestamp>,
    last_seen_at: Option<Timestamp>,
    last_tick_at: Option<Timestamp>,
    actives: &Vec<SessionRow>,
    new_id: String,
    now: Timestamp,
) -> (r: (Vec<SessionChange>, Option<(String, Timestamp)>))
    ensures
        ({
            let p = Playing {
                identity: live_session::opt_identity(*identity),
                started_at: time::opt_time(started_at),
                last_seen_at: time::opt_time(last_seen_at),
                last_tick_at: time::opt_time(last_tick_at),
            };
            let rows = db::row_views(actives@);
            &&& db::change_views(r.0@) == reconcile_plan(p, rows, new_id@, now@)
            &&& match r.1 {
                Some((id, start)) => kept_session(p, rows, new_id@, now@) == Some((id@, start@)),
                None => kept_session(p, rows, new_id@, now@) is None,
            }
        }),
{
    let ghost p = Playing {
        identity: live_session::opt_identity(*identity),
        started_at: time::opt_time(started_at),
        last_seen_at: time::opt_time(last_seen_at),
        last_tick_at: time::opt_time(last_tick_at),
    };
    let ghost rows = db::row_views(actives@);
    let ghost id = new_id@;
    let mut changes: Vec<SessionChange> = Vec::new();
    assert(db::change_views(changes@) == Seq::<db::ChangeView>::empty());
    match identity {
        Some(i) => {
            let start = match started_at {
                Some(t) => t,
                None => now,
            };
            let (row, is_new) = open_session_at(actives, i, start, new_id);
            let last_seen = match last_seen_at {
                Some(t) => t,
                None => row.started_at,
            };
            let kept = (row.id.clone(), row.started_at);
            let ghost new_row = row@;
            let ghost mut head = Seq::<db::ChangeView>::empty();
            if is_new {
                push_change(&mut changes, SessionChange::Insert(row));
                proof {
                    head = seq![db::ChangeView::Insert(new_row)];
                }
                assert(db::change_views(changes@) == head);
            }
            let ghost f = |r: db::RowView| r.identity_id != i@.id;
            let ghost at = |r: db::RowView| last_seen@;
            let mut k: usize = 0;
            assert(head + ends_for(rows.take(0), f, at, now@) == head);
            while k < actives.len()
                invariant
                    k <= actives@.len(),
                    rows == db::row_views(actives@),
                    f == (|r: db::RowView| r.identity_id != i@.id),
                    at == (|r: db::RowView| last_seen@),
                    db::change_views(changes@) == head + ends_for(
                        rows.take(k as int),
                        f,
                        at,
                        now@,
                    ),
                decreases actives.len() - k,
            {
                assert(rows.take(k + 1).drop_last() == rows.take(k as int));
                assert(rows.take(k + 1).last() == actives@[k as int]@);
                if !same(actives[k].identity_id.as_str(), i.id.as_str()) {
                    if let Some(c) = end_of_session(&actives[k], last_seen, now) {
                        push_change(&mut changes, c);
                        assert(head + ends_for(rows.take(k as int), f, at, now@).push(c@) == (head
                            + ends_for(rows.take(k as int), f, at, now@)).push(c@));
                    }
                }
                k = k + 1;
            }
            assert(rows.take(k as int) == rows);
            let ghost ends = ends_for(rows, f, at, now@);
            match db::oldest_index(actives, i.id.as_str()) {
                Some(keep) => {
                    assert(head + ends == ends);
                    let mut j: usize = 0;
                    assert(ends + discards_for(rows.take(0), i@.id, keep as int) == ends);
                    while j < actives.len()
                        invariant
                            j <= actives@.len(),
                            rows == db::row_views(actives@),
                            db::change_views(changes@) == ends + discards_for(
                                rows.take(j as int),
                                i@.id,
                                keep as int,
                            ),
                        decreases actives.len() - j,
                    {
                        assert(rows.take(j + 1).drop_last() == rows.take(j as int));
                        assert(rows.take(j + 1).last() == actives@[j as int]@);
                        let ghost before = discards_for(rows.take(j as int), i@.id, keep as int);
                        if j != keep && same(actives[j].identity_id.as_str(), i.id.as_str()) {
                            let c = SessionChange::Discard { id: actives[j].id.clone() };
                            push_change(&mut changes, c);
                            assert(ends + before.push(c@) == (ends + before).push(c@));
                        }
                        j = j + 1;
                    }
                    assert(rows.take(j as int) == rows);
                },
                None => {},
            }
            assert(db::change_views(changes@) == reconcile_plan(p, rows, id, now@));
            (changes, Some(kept))
        },
        None => {
            if last_tick_at.is_some() {
                let ghost f = |r: db::RowView| true;
                let ghost at = |r: db::RowView| orphan_end(r.started_at, now@);
                let mut k: usize = 0;
                while k < actives.len()
                    invariant
                        k <= actives@.len(),
                        rows == db::row_views(actives@),
                        f == (|r: db::RowView| true),
                        at == (|r: db::RowView| orphan_end(r.started_at, now@)),
                        db::change_views(changes@) == ends_for(rows.take(k as int), f, at, now@),
                    decreases actives.len() - k,
                {
                    assert(rows.take(k + 1).drop_last() == rows.take(k as int));
                    assert(rows.take(k + 1).last() == actives@[k as int]@);
                    let at_time = orphan_end_of(&actives[k].started_at, &now);
                    if let Some(c) = end_of_session(&actives[k], at_time, now) {
                        push_change(&mut changes, c);
                    }
                    k = k + 1;
                }
                assert(rows.take(k as int) == rows);
            }
            (changes, None)
        },
    }
}

/// The changes that store the end of a session in a table. The rows that go on are
/// read only where the session's own row does not go on; what is wrong with one of
/// them is told.
pub fn store_end(
    end: &PendingEnd,
    linked: &Option<SessionRow>,
    table: &Vec<Vec<DbValue>>,
    new_id: String,
    now: Timestamp,
) -> (r: Result<Vec<SessionChange>, String>)
    requires
        db::is_session_table(table@),
    ensures
        ({
            let own = db::opt_row(*linked);
            if linked_goes_on(end@, own) {
                &&& r is Ok
                &&& db::change_views(r->Ok_0@) == end_plan(
                    end@,
                    own,
                    Seq::empty(),
                    new_id@,
                    now@,
                )
            } else {
                match db::read_all(db::Query::Active.answer(db::table_views(table@))) {
                    Ok(actives) => {
                        &&& r is Ok
                        &&& db::change_views(r->Ok_0@) == end_plan(
                            end@,
                            own,
                            actives,
                            new_id@,
                            now@,
                        )
                    },
                    Err(e) => r is Err && r->Err_0@ == e,
                }
            }
        }),
{
    let goes_on = match (&end.db_session_id, linked) {
        (Some(_), Some(row)) => row.push_status == PushStatus::Active,
        _ => false,
    };
    let actives = if goes_on {
        Vec::new()
    } else {
        match list_active(table) {
            Ok(rows) => rows,
            Err(e) => {
                return Err(e);
            },
        }
    };
    proof {
        if goes_on {
            assert(db::row_views(actives@) == Seq::<db::RowView>::empty());
        }
    }
    Ok(write_pending_end(end, linked, &actives, new_id, now))
}

/// The changes that bring a table in line with the game that is being played, and
/// the id and the beginning of its session. The rows that go on are read only
/// where there is a game or has been a sample; what is wrong with one of them is
/// told.
pub fn reconcile_table(
    identity: &Option<GameIdentity>,
    started_at: Option<Timestamp>,
    last_seen_at: Option<Timestamp>,
    last_tick_at: Option<Timestamp>,
    table: &Vec<Vec<DbValue>>,
    new_id: String,
    now: Timestamp,
) -> (r: Result<(Vec<SessionChange>, Option<(String, Timestamp)>), String>)
    requires
        db::is_session_table(table@),
    ensures
        ({
            let p = Playing {
                identity: live_session::opt_identity(*identity),
                started_at: time::opt_time(started_at),
                last_seen_at: time::opt_time(last_seen_at),
                last_tick_at: time::opt_time(last_tick_at),
            };
            if p.identity is None && p.last_tick_at is None {
                r is Ok && (r->Ok_0).0@.len() == 0 && (r->Ok_0).1 is None
            } else {
                match db::read_all(db::Query::Active.answer(db::table_views(table@))) {
                    Ok(rows) => {
                        &&& r is Ok
                        &&& db::change_views((r->Ok_0).0@) == reconcile_plan(
                            p,
                            rows,
                            new_id@,
                            now@,
                        )
                        &&& match (r->Ok_0).1 {
                            Some((id, start)) => kept_session(p, rows, new_id@, now@) == Some(
                                (id@, start@),
                            ),
                            None => kept_session(p, rows, new_id@, now@) is None,
                        }
                    },
                    Err(e) => r is Err && r->Err_0@ == e,
                }
            }
        }),
{
    if identity.is_none() && last_tick_at.is_none() {
        return Ok((Vec::new(), None));
    }
    match list_active(table) {
        Ok(actives) => Ok(
            reconcile_live(
                identity,
                started_at,
                last_seen_at,
                last_tick_at,
                &actives,
                new_id,
                now,
            ),
        ),
        Err(e) => Err(e),
    }
}

// ---------------------------------------------------------------------------
// Ends in memory
// ---------------------------------------------------------------------------

/// Takes the ends that wait to be stored.
pub fn take_pending(live: &mut LiveSession) -> (r: Vec<PendingEnd>)
    ensures
        live_session::end_views(r@) == old(live)@.pending_ends,
        final(live)@ == (live_session::LiveView {
            pending_ends: Seq::empty(),
            ..old(live)@
        }),
{
    let mut taken: Vec<PendingEnd> = Vec::new();
    core::mem::swap(&mut taken, &mut live.pending_ends);
    assert(live@.pending_ends == Seq::<live_session::EndView>::empty());
    taken
}

/// Puts ends that could not be stored back, in front of those that have come
/// since.
pub fn put_back(live: &mut LiveSession, unsent: Vec<PendingEnd>)
    ensures
        final(live)@ == (live_session::LiveView {
            pending_ends: live_session::end_views(unsent@) + old(live)@.pending_ends,
            ..old(live)@
        }),
{
    let ghost first = unsent@;
    let ghost since = live.pending_ends@;
    let mut all = unsent;
    let mut i: usize = 0;
    assert(first + since.take(0) == first);
    while i < live.pending_ends.len()
        invariant
            i <= since.len(),
            *live == *old(live),
            live.pending_ends@ == since,
            all@ == first + since.take(i as int),
        decreases live.pending_ends.len() - i,
    {
        all.push(live.pending_ends[i].clone());
        assert(all@ == first + since.take(i + 1));
        i = i + 1;
    }
    assert(since.take(i as int) == since);
    live.pending_ends = all;
    assert(live@.pending_ends == live_session::end_views(first) + live_session::end_views(since));
}

/// After the first of the ends that wait was stored, or was not: gives those that
/// are to be stored next, or the error, and then all of them wait again.
pub fn after_store(
    live: &mut LiveSession,
    waiting: Vec<PendingEnd>,
    result: Result<(), PersistError>,
) -> (r: Result<Vec<PendingEnd>, PersistError>)
    requires
        waiting@.len() > 0,
    ensures
        match result {
            Ok(()) => {
                &&& r is Ok
                &&& r->Ok_0@ == waiting@.skip(1)
                &&& *final(live) == *old(live)
            },
            Err(e) => {
                &&& r == Err::<Vec<PendingEnd>, PersistError>(e)
                &&& final(live)@ == (live_session::LiveView {
                    pending_ends: live_session::end_views(waiting@) + old(live)@.pending_ends,
                    ..old(live)@
                })
            },
        },
{
    match result {
        Ok(()) => {
            let mut rest = waiting;
            rest.remove(0);
            assert(rest@ == waiting@.skip(1));
            Ok(rest)
        },
        Err(e) => {
            put_back(live, waiting);
            Err(e)
        },
    }
}

/// Ends are neither lost nor reordered when storing stops half-way: of the ends
/// that waited and those that have come since, exactly the stored ones are gone
/// after the others were put back.
pub proof fn law_unstored_ends_wait(
    waited: Seq<live_session::EndView>,
    since: Seq<live_session::EndView>,
    stored: int,
)
    requires
        0 <= stored <= waited.len(),
    ensures
        waited.skip(stored) + since == (waited + since).skip(stored),
{
}

/// Takes over the id and the beginning of the stored session of a game, if it is
/// still being played.
pub fn adopt_session(live: &mut LiveSession, identity_id: &str, id: String, started_at: Timestamp)
    ensures
        final(live)@ == (if old(live)@.identity is Some && old(live)@.identity->0.id
            == identity_id@ {
            live_session::LiveView {
                db_session_id: Some(id@),
                started_at: Some(started_at@),
                ..old(live)@
            }
        } else {
            old(live)@
        }),
{
    if live.is_tracking_id(identity_id) {
        live.db_session_id = Some(id);
        live.started_at = Some(started_at);
    }
}

// ---------------------------------------------------------------------------
// What is shown of the stored sessions
// ---------------------------------------------------------------------------

/// How many sessions are shown.
pub const HISTORY_LIMIT: i64 = 100;

/// What is shown of the stored sessions.
#[derive(Debug)]
pub struct DbView {
    pub turso_ok: bool,
    pub pending_count: usize,
    pub active: Option<SessionRow>,
    pub history: Vec<SessionRow>,
}

impl DbView {
    /// Nothing is known.
    pub fn empty() -> (r: Self)
        ensures
            !r.turso_ok,
            r.pending_count == 0,
            r.active is None,
            r.history@.len() == 0,
    {
        DbView { turso_ok: false, pending_count: 0, active: None, history: Vec::new() }
    }

    /// What is shown of a table: how many sessions wait, the oldest that goes on,
    /// and the newest. Where a row of those that go on tells no session, or else one
    /// of the newest, it is said what is wrong with it; other rows are not read.
    pub fn of_table(table: &Vec<Vec<DbValue>>) -> (r: Result<Self, String>)
        requires
            db::is_session_table(table@),
        ensures
            ({
                let t = db::table_views(table@);
                let shown = db::read_all(db::newest(t, HISTORY_LIMIT as int));
                match db::oldest_active(t) {
                    Err(e) => r is Err && r->Err_0@ == e,
                    Ok(active) => match shown {
                        Err(e) => r is Err && r->Err_0@ == e,
                        Ok(history) => {
                            &&& r is Ok
                            &&& r->Ok_0.turso_ok
                            &&& r->Ok_0.pending_count == db::waiting(t)
                            &&& db::opt_row(r->Ok_0.active) == active
                            &&& db::row_views(r->Ok_0.history@) == history
                        },
                    },
                }
            }),
    {
        let pending_count: usize = count_pending(table);
        let active = match get_active(table) {
            Ok(row) => row,
            Err(e) => {
                return Err(e);
            },
        };
        match list_sessions(table, HISTORY_LIMIT) {
            Ok(history) => Ok(DbView { turso_ok: true, pending_count, active, history }),
            Err(e) => Err(e),
        }
    }
}

// ---------------------------------------------------------------------------
// Requests
// ---------------------------------------------------------------------------

/// A request of the user to the worker.
#[derive(Debug)]
pub enum PersistCmd {
    Confirm { fingerprint: String, title: String },
    Ignore { identity_id: String, title: String },
    Unignore { identity_id: String },
    AddManual { game: ManualGame, identity_id: String },
    EnsureOpen,
}

/// A change to what is stored.
#[derive(Debug)]
pub enum Statement {
    /// Stores what the user has said of a fingerprint, in place of what was said
    /// before.
    UpsertMapping(UserMapping),
    /// Stores that an identity is ignored.
    UpsertIgnored(IgnoredIdentity),
    /// Stores that an identity is not ignored any more.
    RemoveIgnored(String),
    /// Stores a game of the user, in place of the one with its id.
    UpsertManual(ManualGame),
    /// Changes a session.
    Session(SessionChange),
}

/// The mathematical value of a `Statement`.
#[verifier::ext_equal]
pub enum StatementView {
    UpsertMapping { fingerprint: Seq<char>, title: Seq<char>, identity_id: Seq<char> },
    UpsertIgnored { identity_id: Seq<char>, title: Seq<char> },
    RemoveIgnored { identity_id: Seq<char> },
    UpsertManual(identity::ManualView),
    Session(db::ChangeView),
}

impl View for Statement {
    type V = StatementView;

    open spec fn view(&self) -> StatementView {
        match self {
            Statement::UpsertMapping(m) => StatementView::UpsertMapping {
                fingerprint: m.fingerprint@,
                title: m.title@,
                identity_id: m.identity_id@,
            },
            Statement::UpsertIgnored(i) => StatementView::UpsertIgnored {
                identity_id: i.identity_id@,
                title: i.title@,
            },
            Statement::RemoveIgnored(id) => StatementView::RemoveIgnored { identity_id: id@ },
            Statement::UpsertManual(g) => StatementView::UpsertManual(g@),
            Statement::Session(c) => StatementView::Session(c@),
        }
    }
}

/// The values of a list of statements.
pub open spec fn statement_views(s: Seq<Statement>) -> Seq<StatementView> {
    s.map_values(|c: Statement| c@)
}

/// What a request comes down to.
#[derive(Debug)]
pub struct CmdPlan {
    /// What has to be stored, in order; the request fails where this does.
    pub must: Vec<Statement>,
    /// What is stored after that, if it can be.
    pub may: Vec<Statement>,
    /// The game that is then forgotten, if it is being played.
    pub forget: Option<String>,
}

/// The identity that the user has given a fingerprint.
pub open spec fn user_id(fingerprint: Seq<char>) -> Seq<char> {
    "user:"@ + fingerprint
}

/// The statements that delete the sessions of an identity that go on.
pub open spec fn discards(rows: Seq<db::RowView>, identity_id: Seq<char>) -> Seq<StatementView>
    decreases rows.len(),
{
    if rows.len() == 0 {
        Seq::empty()
    } else {
        let before = discards(rows.drop_last(), identity_id);
        if rows.last().identity_id == identity_id {
            before.push(
                StatementView::Session(db::ChangeView::Discard { id: rows.last().id }),
            )
        } else {
            before
        }
    }
}

/// What has to be stored for a request.
pub open spec fn must_store(cmd: PersistCmd, actives: Seq<db::RowView>) -> Seq<StatementView> {
    match cmd {
        PersistCmd::Confirm { fingerprint, title } => seq![
            StatementView::UpsertMapping {
                fingerprint: fingerprint@,
                title: title@,
                identity_id: user_id(fingerprint@),
            },
        ],
        PersistCmd::Ignore { identity_id, title } => seq![
            StatementView::UpsertIgnored { identity_id: identity_id@, title: title@ },
        ] + discards(actives, identity_id@),
        PersistCmd::Unignore { identity_id } => seq![
            StatementView::RemoveIgnored { identity_id: identity_id@ },
        ],
        PersistCmd::AddManual { game, identity_id } => seq![StatementView::UpsertManual(game@)],
        PersistCmd::EnsureOpen => Seq::empty(),
    }
}

/// What is stored after that, if it can be: what the user adds is not ignored any
/// more.
pub open spec fn may_store(cmd: PersistCmd) -> Seq<StatementView> {
    match cmd {
        PersistCmd::Confirm { fingerprint, title } => seq![
            StatementView::RemoveIgnored { identity_id: user_id(fingerprint@) },
        ],
        PersistCmd::AddManual { game, identity_id } => seq![
            StatementView::RemoveIgnored { identity_id: identity_id@ },
        ],
        _ => Seq::empty(),
    }
}

/// The game that is forgotten after a request.
pub open spec fn forgets(cmd: PersistCmd) -> Option<Seq<char>> {
    match cmd {
        PersistCmd::Ignore { identity_id, title } => Some(identity_id@),
        _ => None,
    }
}

fn push_statement(list: &mut Vec<Statement>, s: Statement)
    ensures
        statement_views(final(list)@) == statement_views(old(list)@).push(s@),
{
    let ghost was = list@;
    list.push(s);
    assert(statement_views(list@) == statement_views(was).push(s@));
}

/// What a request to a table comes down to. Where the rows that go on cannot be
/// read, none counts.
pub fn plan_request(cmd: &PersistCmd, table: &Vec<Vec<DbValue>>) -> (r: CmdPlan)
    requires
        db::is_session_table(table@),
    ensures
        ({
            let actives = match db::read_all(
                db::Query::Active.answer(db::table_views(table@)),
            ) {
                Ok(rows) => rows,
                Err(_) => Seq::empty(),
            };
            &&& statement_views(r.must@) == must_store(*cmd, actives)
            &&& statement_views(r.may@) == may_store(*cmd)
            &&& text::opt_view(r.forget) == forgets(*cmd)
        }),
{
    let actives = match list_active(table) {
        Ok(rows) => rows,
        Err(_) => {
            let none: Vec<SessionRow> = Vec::new();
            assert(db::row_views(none@) == Seq::<db::RowView>::empty());
            none
        },
    };
    plan_cmd(cmd, &actives)
}

/// What a request comes down to. `actives` are the sessions that go on.
pub fn plan_cmd(cmd: &PersistCmd, actives: &Vec<SessionRow>) -> (r: CmdPlan)
    ensures
        statement_views(r.must@) == must_store(*cmd, db::row_views(actives@)),
        statement_views(r.may@) == may_store(*cmd),
        text::opt_view(r.forget) == forgets(*cmd),
{
    let mut must: Vec<Statement> = Vec::new();
    let mut may: Vec<Statement> = Vec::new();
    let mut forget: Option<String> = None;
    let ghost rows = db::row_views(actives@);
    assert(statement_views(must@) == Seq::<StatementView>::empty());
    assert(statement_views(may@) == Seq::<StatementView>::empty());
    match cmd {
        PersistCmd::Confirm { fingerprint, title } => {
            let id = join2("user:", fingerprint.as_str());
            push_statement(
                &mut must,
                Statement::UpsertMapping(
                    UserMapping {
                        fingerprint: fingerprint.clone(),
                        title: title.clone(),
                        identity_id: id.clone(),
                    },
                ),
            );
            push_statement(&mut may, Statement::RemoveIgnored(id));
        },
        PersistCmd::Ignore { identity_id, title } => {
            push_statement(
                &mut must,
                Statement::UpsertIgnored(
                    IgnoredIdentity { identity_id: identity_id.clone(), title: title.clone() },
                ),
            );
            let ghost first = statement_views(must@);
            let mut i: usize = 0;
            assert(first + discards(rows.take(0), identity_id@) == first);
            while i < actives.len()
                invariant
                    i <= actives@.len(),
                    rows == db::row_views(actives@),
                    statement_views(must@) == first + discards(rows.take(i as int), identity_id@),
                decreases actives.len() - i,
            {
                assert(rows.take(i + 1).drop_last() == rows.take(i as int));
                assert(rows.take(i + 1).last() == actives@[i as int]@);
                let ghost before = discards(rows.take(i as int), identity_id@);
                if same(actives[i].identity_id.as_str(), identity_id.as_str()) {
                    let s = Statement::Session(
                        SessionChange::Discard { id: actives[i].id.clone() },
                    );
                    push_statement(&mut must, s);
                    assert((first + before).push(s@) == first + before.push(s@));
                }
                i = i + 1;
            }
            assert(rows.take(i as int) == rows);
            assert(first == seq![
                StatementView::UpsertIgnored { identity_id: identity_id@, title: title@ },
            ]);
            forget = Some(identity_id.clone());
        },
        PersistCmd::Unignore { identity_id } => {
            push_statement(&mut must, Statement::RemoveIgnored(identity_id.clone()));
        },
        PersistCmd::AddManual { game, identity_id } => {
            push_statement(&mut must, Statement::UpsertManual(game.clone()));
            push_statement(&mut may, Statement::RemoveIgnored(identity_id.clone()));
        },
        PersistCmd::EnsureOpen => {},
    }
    assert(statement_views(must@) == must_store(*cmd, rows));
    assert(statement_views(may@) == may_store(*cmd));
    CmdPlan { must, may, forget }
}

/// Ignoring a game ends no session of it and pushes nothing: a statement that it
/// stores says that the game is ignored, or deletes a session of the game.
pub proof fn law_ignore_pushes_nothing(
    cmd: PersistCmd,
    actives: Seq<db::RowView>,
    k: int,
)
    requires
        cmd is Ignore,
        0 <= k < must_store(cmd, actives).len(),
    ensures
        must_store(cmd, actives)[k] is UpsertIgnored || exists|j: int|
            {
                &&& 0 <= j < actives.len()
                &&& (#[trigger] actives[j]).identity_id == forgets(cmd)->0
                &&& must_store(cmd, actives)[k] == StatementView::Session(
                    db::ChangeView::Discard { id: actives[j].id },
                )
            },
{
    if k > 0 {
        lemma_discards(actives, forgets(cmd)->0, k - 1);
    }
}

proof fn lemma_discards(rows: Seq<db::RowView>, identity_id: Seq<char>, k: int)
    requires
        0 <= k < discards(rows, identity_id).len(),
    ensures
        exists|j: int|
            {
                &&& 0 <= j < rows.len()
                &&& (#[trigger] rows[j]).identity_id == identity_id
                &&& discards(rows, identity_id)[k] == StatementView::Session(
                    db::ChangeView::Discard { id: rows[j].id },
                )
            },
    decreases rows.len(),
{
    let t = rows.drop_last();
    let before = discards(t, identity_id);
    if k < before.len() {
        lemma_discards(t, identity_id, k);
        let j = choose|j: int|
            {
                &&& 0 <= j < t.len()
                &&& (#[trigger] t[j]).identity_id == identity_id
                &&& before[k] == StatementView::Session(
                    db::ChangeView::Discard { id: t[j].id },
                )
            };
        assert(rows[j] == t[j]);
    } else {
        assert(rows[rows.len() - 1] == rows.last());
    }
}

/// Ignoring a game deletes every session of it that goes on.
pub proof fn law_ignore_discards_all(
    cmd: PersistCmd,
    actives: Seq<db::RowView>,
    j: int,
)
    requires
        cmd is Ignore,
        0 <= j < actives.len(),
        actives[j].identity_id == forgets(cmd)->0,
    ensures
        must_store(cmd, actives).contains(
            StatementView::Session(db::ChangeView::Discard { id: actives[j].id }),
        ),
{
    lemma_discards_all(actives, forgets(cmd)->0, j);
    let d = discards(actives, forgets(cmd)->0);
    let s = StatementView::Session(db::ChangeView::Discard { id: actives[j].id });
    let k = choose|k: int| 0 <= k < d.len() && d[k] == s;
    assert(must_store(cmd, actives)[k + 1] == s);
}

proof fn lemma_discards_all(rows: Seq<db::RowView>, identity_id: Seq<char>, j: int)
    requires
        0 <= j < rows.len(),
        rows[j].identity_id == identity_id,
    ensures
        discards(rows, identity_id).contains(
            StatementView::Session(db::ChangeView::Discard { id: rows[j].id }),
        ),
    decreases rows.len(),
{
    let t = rows.drop_last();
    let before = discards(t, identity_id);
    let s = StatementView::Session(db::ChangeView::Discard { id: rows[j].id });
    if j < rows.len() - 1 {
        assert(t[j] == rows[j]);
        lemma_discards_all(t, identity_id, j);
        let k = choose|k: int| 0 <= k < before.len() && before[k] == s;
        assert(discards(rows, identity_id)[k] == s);
    } else {
        assert(discards(rows, identity_id)[before.len() as int] == s);
    }
}

/// What comes of the request that the configured database be open: what the user
/// is told, and whether the connection is given up. `same_path` is whether the
/// open database is the configured one; only then does `ping` count.
pub fn ensure_open(configured: &String, same_path: bool, ping: &Result<(), PersistError>) -> (r: (
    Result<String, String>,
    Result<(), PersistError>,
))
    ensures
        !same_path ==> r.0 is Ok && (r.0->Ok_0)@ == configured@ && r.1 is Err && (r.1->Err_0)
            is PathChanged,
        same_path ==> match *ping {
            Ok(()) => r.0 is Ok && (r.0->Ok_0)@ == configured@ && r.1 is Ok,
            Err(PersistError::Poison(e)) => {
                &&& r.0 is Err
                &&& (r.0->Err_0)@ == e@
                &&& r.1 is Err
                &&& (r.1->Err_0) is Poison
                &&& ((r.1->Err_0)->Poison_0)@ == e@
            },
            Err(PersistError::PathChanged) => r.0 is Err && r.1 is Err && (r.1->Err_0)
                is PathChanged,
        },
{
    if !same_path {
        return (Ok(configured.clone()), Err(PersistError::PathChanged));
    }
    match ping {
        Ok(()) => (Ok(configured.clone()), Ok(())),
        Err(PersistError::Poison(e)) => (Err(e.clone()), Err(PersistError::Poison(e.clone()))),
        Err(PersistError::PathChanged) => (
            Err("db path changed".to_owned()),
            Err(PersistError::PathChanged),
        ),
    }
}

// ---------------------------------------------------------------------------
// Pushes and purges
// ---------------------------------------------------------------------------

/// How often a push has been tried that has now failed, given how often it had
/// been tried according to the stored session.
pub open spec fn tries(stored: Option<i64>) -> int {
    match stored {
        Some(n) => n + 1,
        None => 1,
    }
}

/// What is made of a push and of marking its session: the error that the user is
/// shown, and whether the connection is given up. Only where the push has
/// succeeded does it count how the marking went.
pub fn push_outcome(result: &Result<(), String>, marked: Result<(), PersistError>) -> (r: (
    Option<String>,
    Result<(), PersistError>,
))
    ensures
        r == (match *result {
            Ok(()) => (None, marked),
            Err(e) => (Some(e), Ok(())),
        }),
{
    match result {
        Ok(()) => (None, marked),
        Err(e) => (Some(e.clone()), Ok(())),
    }
}


/// The change after a push: the session was pushed, or is to be pushed again.
/// `stored` is how often it had been tried, if that is known.
pub fn after_push(id: &String, result: &Result<(), String>, stored: Option<i64>, now: Timestamp)
    -> (r: SessionChange)
    requires
        stored is Some ==> stored->0 < i64::MAX,
        result is Err ==> time::is_time(
            time::plus(now@, db::backoff(tries(stored) as i64) as int),
        ),
    ensures
        r@ == (match *result {
            Ok(()) => db::ChangeView::Synced { id: id@, acked_at: now@ },
            Err(e) => db::ChangeView::Failed {
                id: id@,
                error: e@,
                retry_count: tries(stored) as i64,
                next_retry_at: time::plus(now@, db::backoff(tries(stored) as i64) as int),
            },
        }),
{
    match result {
        Ok(()) => mark_synced(id, now),
        Err(e) => {
            let n: i64 = match stored {
                Some(n) => n + 1,
                None => 1,
            };
            mark_push_failed(id, e, n, now)
        },
    }
}

/// After how many rounds old sessions are purged.
pub const PURGE_ROUNDS: u32 = 30;

/// Counts the rounds of the worker up to the next purge.
pub struct PurgeTimer {
    rounds: u32,
}

impl View for PurgeTimer {
    type V = int;

    closed spec fn view(&self) -> int {
        self.rounds as int
    }
}

impl PurgeTimer {
    #[verifier::type_invariant]
    spec fn wf(self) -> bool {
        self.rounds < PURGE_ROUNDS
    }

    /// No round has passed.
    pub fn new() -> (r: Self)
        ensures
            r@ == 0,
    {
        PurgeTimer { rounds: 0 }
    }

    /// Counts a round. Gives whether it is time to purge; then the count begins
    /// again.
    pub fn tick(&mut self) -> (r: bool)
        ensures
            r == (old(self)@ + 1 >= PURGE_ROUNDS),
            r <==> old(self)@ >= 29,
            final(self)@ == (if r {
                0
            } else {
                old(self)@ + 1
            }),
    {
        proof {
            use_type_invariant(&*self);
        }
        let n: u32 = self.rounds + 1;
        if n >= PURGE_ROUNDS {
            self.rounds = 0;
            true
        } else {
            self.rounds = n;
            false
        }
    }
}

} // verus!
