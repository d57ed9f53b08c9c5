//! What holds of stored sessions: how they begin, end, wait and go, and how their
//! columns tell them.

use vstd::prelude::*;

use crate::db;
use crate::db::{ChangeView, ColumnView, PushStatus, RowView};
use crate::identity;
use crate::live_session;
use crate::number;
use crate::order;
use crate::persist;
use crate::persist::{PersistCmd, PersistError, StatementView};
use crate::time;

verus! {

// ---------------------------------------------------------------------------
// Beginning and ending
// ---------------------------------------------------------------------------

/// A session that begins is that of the game, goes on, and has nothing of a push yet.
pub proof fn law_session_begins(i: identity::IdentityView, started_at: int, id: Seq<char>)
    ensures
        ({
            let r = db::opened(i, started_at, id);
            &&& r.id == id
            &&& r.identity_id == i.id
            &&& r.title == i.title
            &&& r.steam_app_id == i.steam_app_id
            &&& r.exe == i.exe
            &&& r.source == i.source
            &&& r.started_at == started_at
            &&& r.ended_at is None
            &&& r.duration_secs is None
            &&& r.push_status == PushStatus::Active
            &&& r.acked_at is None
            &&& r.retry_count == 0
            &&& r.next_retry_at is None
            &&& r.last_error is None
        }),
{
}

/// The game of a session, and what else does not change as it ends or is pushed.
pub open spec fn same_session(a: RowView, b: RowView) -> bool {
    &&& a.id == b.id
    &&& a.identity_id == b.identity_id
    &&& a.title == b.title
    &&& a.steam_app_id == b.steam_app_id
    &&& a.exe == b.exe
    &&& a.source == b.source
    &&& a.started_at == b.started_at
}

/// A session that goes on ends at the given time, but not before it began; it then
/// waits for its push, at once. Outside of leap seconds it lasted for the whole
/// seconds between the two.
pub proof fn law_session_ends(row: RowView, ended_at: int, now: int)
    requires
        row.push_status == PushStatus::Active,
        time::is_time(row.started_at),
        time::is_time(ended_at),
    ensures
        ({
            let r = db::ended(row, ended_at, now);
            &&& same_session(r, row)
            &&& ended_at >= row.started_at ==> r.ended_at == Some(ended_at)
            &&& ended_at < row.started_at ==> r.ended_at == Some(row.started_at)
            &&& r.push_status == PushStatus::Pending
            &&& r.next_retry_at == Some(now)
            &&& r.acked_at == row.acked_at
            &&& r.retry_count == row.retry_count
            &&& r.last_error == row.last_error
            &&& r.duration_secs is Some
            &&& ended_at < row.started_at ==> r.duration_secs->0 == 0
            &&& time::beyond(row.started_at) < 1_000_000_000 && time::beyond(ended_at)
                < 1_000_000_000 && ended_at >= row.started_at ==> r.duration_secs->0 == (
            time::unix_nanos(ended_at) - time::unix_nanos(row.started_at)) / 1_000_000_000
        }),
{
    db::law_duration(row, ended_at, now);
    let r = db::ended(row, ended_at, now);
    if ended_at < row.started_at {
        time::law_since_itself(row.started_at);
    } else {
        time::law_time_passes(ended_at, row.started_at);
        if time::beyond(row.started_at) < 1_000_000_000 && time::beyond(ended_at) < 1_000_000_000 {
            let nanos = time::since(ended_at, row.started_at);
            assert(nanos == time::unix_nanos(ended_at) - time::unix_nanos(row.started_at));
            assert(nanos >= 0);
            let n = r.duration_secs->0 as int;
            assert(n * 1_000_000_000 <= nanos < (n + 1) * 1_000_000_000);
            assert(nanos / 1_000_000_000 == n);
        }
    }
}

/// A session that does not go on stays as it is.
pub proof fn law_ended_stays(row: RowView, ended_at: int, now: int)
    requires
        row.push_status != PushStatus::Active,
    ensures
        db::ended(row, ended_at, now) == row,
        db::end_change(row, ended_at, now) is None,
{
}

/// The change that ends a session sets what the ended session has, in the row with its
/// id.
pub proof fn law_end_tells_the_end(row: RowView, ended_at: int, now: int)
    requires
        row.push_status == PushStatus::Active,
    ensures
        db::end_change(row, ended_at, now) is Some,
        db::end_change(row, ended_at, now)->0 is End,
        ({
            let c = db::end_change(row, ended_at, now)->0;
            let r = db::ended(row, ended_at, now);
            &&& c->End_id == row.id
            &&& r.ended_at == Some(c->End_ended_at)
            &&& r.duration_secs == Some(c->End_duration_secs)
            &&& c->End_next_retry_at == now
        }),
{
}

// ---------------------------------------------------------------------------
// Pushing
// ---------------------------------------------------------------------------

/// After the first, second and third failed push it is half a minute, two minutes and
/// ten minutes to the next one, and after each further one an hour; the wait never
/// gets shorter.
pub proof fn law_backoff(retry_count: i64, more: i64)
    requires
        0 <= retry_count <= more,
    ensures
        db::backoff(0) == 30,
        db::backoff(1) == 120,
        db::backoff(2) == 600,
        retry_count >= 3 ==> db::backoff(retry_count) == 3_600,
        db::backoff(retry_count) <= db::backoff(more),
        30 <= db::backoff(retry_count) <= 3_600,
{
}

/// After a failed push the session is tried again: the count is one more than what was
/// stored, or one; the next try is after the wait for that count; the error is kept.
/// Nothing of the session itself changes.
pub proof fn law_failed_push(row: RowView, error: Seq<char>, retry_count: i64, now: int)
    requires
        time::is_time(now),
        time::beyond(now) < 1_000_000_000,
    ensures
        persist::tries(Some(retry_count)) == retry_count + 1,
        persist::tries(None) == 1,
        ({
            let r = db::failed(row, error, retry_count, now);
            &&& same_session(r, row)
            &&& r.ended_at == row.ended_at
            &&& r.duration_secs == row.duration_secs
            &&& r.acked_at == row.acked_at
            &&& r.push_status == PushStatus::Failed
            &&& r.last_error == Some(error)
            &&& r.retry_count == retry_count
            &&& r.next_retry_at is Some
            &&& time::since(r.next_retry_at->0, now) == db::backoff(retry_count) * 1_000_000_000
        }),
{
    time::law_plus_and_since(now, db::backoff(retry_count) as int);
}

/// A session that was pushed has no error and no next try, and tells when it was
/// acknowledged. Nothing of the session itself changes.
pub proof fn law_pushed(row: RowView, now: int)
    ensures
        ({
            let r = db::synced(row, now);
            &&& same_session(r, row)
            &&& r.ended_at == row.ended_at
            &&& r.duration_secs == row.duration_secs
            &&& r.retry_count == row.retry_count
            &&& r.push_status == PushStatus::Synced
            &&& r.acked_at == Some(now)
            &&& r.last_error is None
            &&& r.next_retry_at is None
        }),
{
}

/// The id of the session that a change is for, if it is for one.
pub open spec fn change_id(c: ChangeView) -> Option<Seq<char>> {
    match c {
        ChangeView::Insert(row) => Some(row.id),
        ChangeView::End { id, .. } => Some(id),
        ChangeView::Discard { id } => Some(id),
        ChangeView::Synced { id, .. } => Some(id),
        ChangeView::Failed { id, .. } => Some(id),
        ChangeView::Purge { .. } => None,
    }
}

/// A change that is for another session makes no difference to this one, and one that
/// is for this one makes it another in its end and its push only; it deletes nothing
/// but a session that goes on and is discarded, or an acknowledged one that is purged.
pub proof fn law_change_is_for_one(row: RowView, c: ChangeView)
    ensures
        change_id(c) is Some && change_id(c) != Some(row.id) ==> db::row_after(row, c) == Some(row),
        c is Insert ==> db::row_after(row, c) == Some(row),
        c is Discard && change_id(c) == Some(row.id) ==> (db::row_after(row, c) is None
            <==> row.push_status == PushStatus::Active),
        db::row_after(row, c) is None ==> (c is Discard && row.push_status == PushStatus::Active)
            || (c is Purge && row.push_status == PushStatus::Synced && row.acked_at is Some),
        db::row_after(row, c) is Some ==> same_session(db::row_after(row, c)->0, row),
{
}

/// What the changes of a push and of an end set in the session that they are for.
pub proof fn law_change_sets(row: RowView, at: int, secs: i64, again: int, error: Seq<char>)
    ensures
        db::row_after(
            row,
            ChangeView::End { id: row.id, ended_at: at, duration_secs: secs, next_retry_at: again },
        ) == Some(
            RowView {
                ended_at: Some(at),
                duration_secs: Some(secs),
                push_status: PushStatus::Pending,
                next_retry_at: Some(again),
                ..row
            },
        ),
        db::row_after(
            row,
            ChangeView::Failed { id: row.id, error, retry_count: secs, next_retry_at: again },
        ) == Some(
            RowView {
                push_status: PushStatus::Failed,
                last_error: Some(error),
                retry_count: secs,
                next_retry_at: Some(again),
                ..row
            },
        ),
        db::row_after(row, ChangeView::Synced { id: row.id, acked_at: at }) == Some(
            RowView {
                push_status: PushStatus::Synced,
                acked_at: Some(at),
                last_error: None,
                next_retry_at: None,
                ..row
            },
        ),
{
}

/// Adding a session puts it under its id, and takes no other away.
pub proof fn law_insert_adds(t: Map<Seq<char>, RowView>, row: RowView, k: Seq<char>)
    ensures
        db::table_after(t, ChangeView::Insert(row)).contains_key(row.id),
        db::table_after(t, ChangeView::Insert(row))[row.id] == row,
        k != row.id ==> (db::table_after(t, ChangeView::Insert(row)).contains_key(k)
            <==> t.contains_key(k)),
        k != row.id && t.contains_key(k) ==> db::table_after(t, ChangeView::Insert(row))[k] == t[k],
{
}

/// A session is purged where it was pushed and acknowledged long enough ago, and a day
/// has 86,400 seconds.
pub proof fn law_purge(row: RowView, days: u32, now: int)
    requires
        time::is_time(now),
        time::beyond(now) < 1_000_000_000,
    ensures
        ({
            let before = time::plus(now, -db::days_secs(days));
            &&& time::since(before, now) == -(days * 86_400 * 1_000_000_000)
            &&& db::row_after(row, ChangeView::Purge { acked_before: before }) is None ==> {
                &&& row.push_status == PushStatus::Synced
                &&& row.acked_at is Some
                &&& !order::text_at_most(
                    time::time_text(before),
                    time::time_text(row.acked_at->0),
                )
            }
            &&& row.push_status == PushStatus::Synced && row.acked_at is Some
                && !order::text_at_most(
                time::time_text(before),
                time::time_text(row.acked_at->0),
            ) ==> db::row_after(row, ChangeView::Purge { acked_before: before }) is None
        }),
{
    time::law_plus_and_since(now, -db::days_secs(days));
}

/// A session waits for its push where it is pending or its push has failed; it is due
/// once it has ended and its next try, if there is one, has come.
pub proof fn law_waits(row: RowView, now: int)
    ensures
        row.push_status.waits() <==> row.push_status != PushStatus::Active && row.push_status
            != PushStatus::Synced,
        db::has_waited(row, now) ==> row.ended_at is Some && row.push_status != PushStatus::Active
            && row.push_status != PushStatus::Synced,
        db::has_waited(row, now) && row.next_retry_at is Some ==> row.next_retry_at->0 <= now,
        row.ended_at is Some && row.push_status == PushStatus::Pending && (row.next_retry_at is None
            || row.next_retry_at->0 <= now) ==> db::has_waited(row, now),
        row.ended_at is Some && row.push_status == PushStatus::Failed && (row.next_retry_at is None
            || row.next_retry_at->0 <= now) ==> db::has_waited(row, now),
{
}

/// At most twenty sessions are pushed at a time, and the first ones; where there are no
/// more, all are.
pub proof fn law_up_to<T>(s: Seq<T>, n: int)
    requires
        0 <= n,
    ensures
        db::DUE_LIMIT == 20,
        db::up_to(s, n).len() <= n,
        s.len() <= n ==> db::up_to(s, n) == s,
        s.len() >= n ==> db::up_to(s, n) == s.take(n),
{
    if s.len() == n {
        assert(s.take(n) == s);
    }
}

/// The newest sessions are the first of all sessions in the order of their beginnings,
/// the latest first; a negative limit is none.
pub proof fn law_newest(t: Seq<Seq<ColumnView>>, limit: int, i: int, j: int)
    requires
        0 <= i < j < db::newest(t, limit).len(),
    ensures
        limit >= 0 ==> db::newest(t, limit).len() <= limit,
        limit < 0 || t.len() <= limit ==> db::newest(t, limit).len() == t.len(),
        db::column_at_most(db::newest(t, limit)[j][6], db::newest(t, limit)[i][6]),
{
    let q = db::Query::Newest;
    db::law_answer(q, t);
    assert(t.filter(|c: Seq<ColumnView>| q.wants(c)) == t) by {
        lemma_filter_all(t, |c: Seq<ColumnView>| q.wants(c));
    }
    let all = q.answer(t);
    assert(db::newest(t, limit)[i] == all[i]);
    assert(db::newest(t, limit)[j] == all[j]);
    assert(q.at_most(all[i], all[j]));
}

proof fn lemma_filter_all<T>(s: Seq<T>, f: spec_fn(T) -> bool)
    requires
        forall|x: T| #[trigger] f(x),
    ensures
        s.filter(f) == s,
    decreases s.len(),
{
    reveal(Seq::filter);
    if s.len() > 0 {
        lemma_filter_all(s.drop_last(), f);
        assert(s.drop_last().push(s.last()) == s);
    }
}

// ---------------------------------------------------------------------------
// Columns
// ---------------------------------------------------------------------------

/// The four statuses have these names, and what is no name of the others is pending.
pub proof fn law_status_names(s: PushStatus, name: Seq<char>)
    ensures
        s.name() == "active"@ <==> s == PushStatus::Active,
        s.name() == "pending"@ <==> s == PushStatus::Pending,
        s.name() == "synced"@ <==> s == PushStatus::Synced,
        s.name() == "failed"@ <==> s == PushStatus::Failed,
        PushStatus::named(name) == PushStatus::Active <==> name == "active"@,
        PushStatus::named(name) == PushStatus::Synced <==> name == "synced"@,
        PushStatus::named(name) == PushStatus::Failed <==> name == "failed"@,
{
    reveal_strlit("active");
    reveal_strlit("pending");
    reveal_strlit("synced");
    reveal_strlit("failed");
    assert("active"@[0] != "synced"@[0]);
    assert("active"@[0] != "failed"@[0]);
    assert("active"@[0] != "pending"@[0]);
    assert("synced"@[0] != "failed"@[0]);
    assert("synced"@[0] != "pending"@[0]);
    assert("failed"@[0] != "pending"@[0]);
}

/// A text is read as itself, and a number as its low 32 bits where 32 bits are wanted;
/// what is null is nothing.
pub proof fn law_columns_are_read(s: Seq<char>, n: i64, u: u32)
    ensures
        ColumnView::Null.as_text() is None,
        ColumnView::Null.as_i64() is None,
        ColumnView::Null.as_u32() is None,
        ColumnView::Null.as_time() is None,
        ColumnView::Text(s).as_text() == Some(s),
        ColumnView::Text(s).as_i64() is None,
        ColumnView::Other(s).as_text() == Some(s),
        ColumnView::Other(s).as_i64() is None,
        ColumnView::Integer(n).as_i64() == Some(n),
        ColumnView::Integer(n).as_text() == Some(
            "Integer("@ + number::signed_decimal(n as int) + ")"@,
        ),
        ColumnView::Integer(u as i64).as_u32() == Some(u),
        time::text_time(s) is Ok ==> ColumnView::Text(s).as_time() == Some(
            time::text_time(s)->Ok_0,
        ),
        time::text_time(s) is Err ==> ColumnView::Text(s).as_time() is None,
{
}

/// In which column of a session what stands.
pub proof fn law_columns(r: RowView)
    ensures
        ({
            let c = db::columns_of(r);
            &&& c.len() == 14
            &&& c[0] == ColumnView::Text(r.id)
            &&& c[1] == ColumnView::Text(r.identity_id)
            &&& c[2] == ColumnView::Text(r.title)
            &&& c[3] == (match r.steam_app_id {
                Some(n) => ColumnView::Integer(n as i64),
                None => ColumnView::Null,
            })
            &&& c[4] == (match r.exe {
                Some(s) => ColumnView::Text(s),
                None => ColumnView::Null,
            })
            &&& c[5] == ColumnView::Text(r.source)
            &&& c[6] == ColumnView::Text(time::time_text(r.started_at))
            &&& c[7] == (match r.ended_at {
                Some(t) => ColumnView::Text(time::time_text(t)),
                None => ColumnView::Null,
            })
            &&& c[8] == (match r.duration_secs {
                Some(n) => ColumnView::Integer(n),
                None => ColumnView::Null,
            })
            &&& c[9] == ColumnView::Text(r.push_status.name())
            &&& c[10] == (match r.acked_at {
                Some(t) => ColumnView::Text(time::time_text(t)),
                None => ColumnView::Null,
            })
            &&& c[11] == ColumnView::Integer(r.retry_count)
            &&& c[12] == (match r.next_retry_at {
                Some(t) => ColumnView::Text(time::time_text(t)),
                None => ColumnView::Null,
            })
            &&& c[13] == (match r.last_error {
                Some(s) => ColumnView::Text(s),
                None => ColumnView::Null,
            })
        }),
{
}

/// A session is told where the columns of its id, identity, title and source are not
/// null and that of its beginning tells a time; it has what stands in its columns.
pub proof fn law_told_session(c: Seq<ColumnView>)
    ensures
        db::session_of(c) is Ok <==> {
            &&& c[0].as_text() is Some
            &&& c[1].as_text() is Some
            &&& c[2].as_text() is Some
            &&& c[5].as_text() is Some
            &&& c[6].as_time() is Some
        },
        db::session_of(c) is Ok ==> {
            let r = db::session_of(c)->Ok_0;
            &&& c[0].as_text() == Some(r.id)
            &&& c[1].as_text() == Some(r.identity_id)
            &&& c[2].as_text() == Some(r.title)
            &&& r.steam_app_id == c[3].as_u32()
            &&& r.exe == c[4].as_text()
            &&& c[5].as_text() == Some(r.source)
            &&& c[6].as_time() == Some(r.started_at)
            &&& r.ended_at == c[7].as_time()
            &&& r.duration_secs == c[8].as_i64()
            &&& c[9].as_text() is None ==> r.push_status == PushStatus::Pending
            &&& c[9].as_text() is Some ==> r.push_status == PushStatus::named(c[9].as_text()->0)
            &&& r.acked_at == c[10].as_time()
            &&& c[11].as_i64() is None ==> r.retry_count == 0
            &&& c[11].as_i64() is Some ==> r.retry_count == c[11].as_i64()->0
            &&& r.next_retry_at == c[12].as_time()
            &&& r.last_error == c[13].as_text()
        },
{
    reveal_strlit("active");
    reveal_strlit("synced");
    reveal_strlit("failed");
    assert("active"@.len() == 6 && "synced"@.len() == 6 && "failed"@.len() == 6);
}

/// What is said of a row that tells no session: which column is null, the first in
/// their order, or what is wrong with its beginning.
pub proof fn law_untold_session(c: Seq<ColumnView>)
    ensures
        c[0].as_text() is None ==> db::session_of(c) == Err::<RowView, Seq<char>>("id"@),
        c[0].as_text() is Some && c[1].as_text() is None ==> db::session_of(c) == Err::<
            RowView,
            Seq<char>,
        >("identity"@),
        c[0].as_text() is Some && c[1].as_text() is Some && c[2].as_text() is None
            ==> db::session_of(c) == Err::<RowView, Seq<char>>("title"@),
        c[0].as_text() is Some && c[1].as_text() is Some && c[2].as_text() is Some
            && c[5].as_text() is None ==> db::session_of(c) == Err::<RowView, Seq<char>>("source"@),
        c[0].as_text() is Some && c[1].as_text() is Some && c[2].as_text() is Some
            && c[5].as_text() is Some && c[6].as_text() is None ==> db::session_of(c) == Err::<
            RowView,
            Seq<char>,
        >("started"@),
{
}

/// Where rows are read, what is told is what is wrong with the first that tells no
/// session.
pub proof fn law_first_error(t: Seq<Seq<ColumnView>>, k: int)
    requires
        0 <= k < t.len(),
        db::session_of(t[k]) is Err,
        forall|j: int| 0 <= j < k ==> db::session_of(#[trigger] t[j]) is Ok,
    ensures
        db::read_all(t) == Err::<Seq<RowView>, Seq<char>>(db::session_of(t[k])->Err_0),
    decreases t.len(),
{
    let front = t.drop_last();
    if k < t.len() - 1 {
        law_first_error(front, k);
    } else {
        db::law_read_all(front);
    }
}

/// The oldest session that goes on is the first of those that go on; there is none where
/// none goes on, and an error where one of them cannot be read.
pub proof fn law_oldest_active(t: Seq<Seq<ColumnView>>)
    ensures
        ({
            let listed = db::Query::Active.answer(t);
            let r = db::oldest_active(t);
            &&& r is Ok <==> forall|i: int|
                0 <= i < listed.len() ==> db::session_of(#[trigger] listed[i]) is Ok
            &&& r is Ok && listed.len() == 0 ==> r->Ok_0 is None
            &&& r is Ok && listed.len() > 0 ==> r->Ok_0 is Some && db::session_of(listed[0]) == Ok::<
                RowView,
                Seq<char>,
            >(r->Ok_0->0)
        }),
{
    db::law_read_all(db::Query::Active.answer(t));
}

/// As many sessions wait as there are rows whose status column says so.
pub proof fn law_waiting(t: Seq<Seq<ColumnView>>, c: Seq<ColumnView>)
    ensures
        db::waiting(Seq::empty()) == 0,
        db::waiting(t.push(c)) == db::waiting(t) + (if c[9] == ColumnView::Text("pending"@) || c[9]
            == ColumnView::Text("failed"@) {
            1nat
        } else {
            0nat
        }),
{
    reveal(Seq::filter);
    assert(t.push(c).drop_last() == t);
}

/// Columns are ordered as null, numbers, texts and other values; numbers by their
/// size, and texts as in a dictionary.
pub proof fn law_column_order(i: i64, j: i64, s: Seq<char>, t: Seq<char>, c: ColumnView)
    ensures
        db::column_at_most(ColumnView::Null, c),
        db::column_at_most(c, ColumnView::Null) ==> c == ColumnView::Null,
        db::column_at_most(ColumnView::Integer(i), ColumnView::Integer(j)) <==> i <= j,
        db::column_at_most(ColumnView::Integer(i), ColumnView::Text(s)),
        !db::column_at_most(ColumnView::Text(s), ColumnView::Integer(i)),
        db::column_at_most(ColumnView::Text(s), ColumnView::Text(t)) <==> order::text_at_most(s, t),
        db::column_at_most(ColumnView::Text(s), ColumnView::Other(t)),
        !db::column_at_most(ColumnView::Other(s), ColumnView::Text(t)),
        db::column_at_most(ColumnView::Other(s), ColumnView::Other(t)) <==> order::text_at_most(
            s,
            t,
        ),
{
}

/// Texts are ordered as in a dictionary: by the first character in which they differ,
/// and a text stands before those that it begins.
pub proof fn law_text_order(common: Seq<char>, a: Seq<char>, b: Seq<char>)
    ensures
        order::text_at_most(common, common + a),
        a.len() > 0 ==> !order::text_at_most(common + a, common),
        a.len() > 0 && b.len() > 0 && a[0] < b[0] ==> order::text_at_most(common + a, common + b)
            && !order::text_at_most(common + b, common + a),
    decreases common.len(),
{
    if common.len() > 0 {
        law_text_order(common.skip(1), a, b);
        assert((common + a).skip(1) == common.skip(1) + a);
        assert((common + b).skip(1) == common.skip(1) + b);
    } else {
        assert(common + a == a);
        assert(common + b == b);
    }
}

/// Which rows a query asks for: those whose status column says that the session goes
/// on; those that wait, have an end and whose next try does not stand after the time;
/// or all.
pub proof fn law_asked_for(c: Seq<ColumnView>, now: time::Timestamp)
    ensures
        db::Query::Active.wants(c) <==> c[9] == ColumnView::Text("active"@),
        db::Query::Due(now).wants(c) <==> {
            &&& c[9] == ColumnView::Text("pending"@) || c[9] == ColumnView::Text("failed"@)
            &&& !(c[7] is Null)
            &&& c[12] is Null || !(c[12] is Text || c[12] is Other) || (c[12] is Text
                && order::text_at_most(c[12]->Text_0, time::time_text(now@)))
        },
        db::Query::Newest.wants(c),
        db::columns_wait(c) <==> c[9] == ColumnView::Text("pending"@) || c[9] == ColumnView::Text(
            "failed"@,
        ),
{
}

/// In which order the rows that are asked for stand: those that go on by their
/// beginnings, those to push by their ends, and all by their beginnings, the latest
/// first.
pub proof fn law_asked_in_order(a: Seq<ColumnView>, b: Seq<ColumnView>, now: time::Timestamp)
    ensures
        db::Query::Active.at_most(a, b) == db::column_at_most(a[6], b[6]),
        db::Query::Due(now).at_most(a, b) == db::column_at_most(a[7], b[7]),
        db::Query::Newest.at_most(a, b) == db::column_at_most(b[6], a[6]),
{
}

// ---------------------------------------------------------------------------
// Opening a session
// ---------------------------------------------------------------------------

/// Of equally old sessions of a game, the first counts.
pub proof fn law_first_of_the_oldest(rows: Seq<RowView>, identity_id: Seq<char>, k: int)
    requires
        0 <= k < rows.len(),
        rows[k].identity_id == identity_id,
        forall|j: int|
            0 <= j < rows.len() && (#[trigger] rows[j]).identity_id == identity_id
                ==> rows[k].started_at <= rows[j].started_at,
        forall|j: int|
            0 <= j < k && (#[trigger] rows[j]).identity_id == identity_id ==> rows[k].started_at
                < rows[j].started_at,
    ensures
        db::oldest_of(rows, identity_id) == Some(k),
    decreases rows.len(),
{
    let front = rows.drop_last();
    if k < rows.len() - 1 {
        law_first_of_the_oldest(front, identity_id, k);
    } else {
        db::lemma_oldest(front, identity_id);
    }
}

/// A game that has a session going on goes on in it, with its beginning; one that has
/// none gets a new one, with the given beginning and id.
pub proof fn law_session_goes_on(
    actives: Seq<RowView>,
    i: identity::IdentityView,
    started_at: int,
    new_id: Seq<char>,
)
    ensures
        ({
            let r = db::session_row(actives, i, started_at, new_id);
            &&& r.identity_id == i.id
            &&& (exists|j: int| 0 <= j < actives.len() && (#[trigger] actives[j]).identity_id == i.id)
                ==> actives.contains(r)
            &&& (forall|j: int|
                0 <= j < actives.len() ==> (#[trigger] actives[j]).identity_id != i.id)
                ==> r.started_at == started_at && r.id == new_id && r.title == i.title
        }),
{
    db::lemma_oldest(actives, i.id);
    if let Some(k) = db::oldest_of(actives, i.id) {
        assert(actives[k] == db::session_row(actives, i, started_at, new_id));
    }
}

// ---------------------------------------------------------------------------
// The session that is being played
// ---------------------------------------------------------------------------

/// A session of which nothing is known but its start ends now, or half a minute after
/// its start if that is earlier.
pub proof fn law_orphan_end(started_at: int, now: int)
    requires
        time::is_time(started_at),
        time::beyond(started_at) < 1_000_000_000,
    ensures
        persist::orphan_end(started_at, now) <= now,
        persist::orphan_end(started_at, now) == now || time::since(
            persist::orphan_end(started_at, now),
            started_at,
        ) == 30_000_000_000,
        now <= time::plus(started_at, 30) ==> persist::orphan_end(started_at, now) == now,
{
    time::law_plus_and_since(started_at, 30);
}

/// Without a game and before the first sample nothing is stored; with a game that has
/// no session going on, one is added that begins when it is known to have begun, or
/// else now.
pub proof fn law_new_session_is_stored(
    p: persist::Playing,
    actives: Seq<RowView>,
    new_id: Seq<char>,
    now: int,
)
    ensures
        p.identity is None && p.last_tick_at is None ==> persist::reconcile_plan(
            p,
            actives,
            new_id,
            now,
        ).len() == 0,
        p.identity is None ==> persist::kept_session(p, actives, new_id, now) is None,
        p.identity is Some && (forall|j: int|
            0 <= j < actives.len() ==> (#[trigger] actives[j]).identity_id != p.identity->0.id)
            ==> {
            let plan = persist::reconcile_plan(p, actives, new_id, now);
            let start = match p.started_at {
                Some(t) => t,
                None => now,
            };
            &&& plan.len() > 0
            &&& plan[0] is Insert
            &&& plan[0]->Insert_0.id == new_id
            &&& plan[0]->Insert_0.identity_id == p.identity->0.id
            &&& plan[0]->Insert_0.title == p.identity->0.title
            &&& plan[0]->Insert_0.started_at == start
            &&& plan[0]->Insert_0.push_status == PushStatus::Active
            &&& persist::kept_session(p, actives, new_id, now) == Some((new_id, start))
        },
{
    if p.identity is Some {
        db::lemma_oldest(actives, p.identity->0.id);
    }
}

/// The end of a session whose own row goes on is stored there and nowhere else, even
/// where another row of the game goes on; an end of which no row is known is stored in
/// a new row that begins when the session began.
pub proof fn law_where_an_end_is_stored(
    e: live_session::EndView,
    linked: Option<RowView>,
    actives: Seq<RowView>,
    new_id: Seq<char>,
    now: int,
)
    ensures
        e.db_session_id is Some && linked is Some && linked->0.push_status == PushStatus::Active
            ==> {
            let plan = persist::end_plan(e, linked, actives, new_id, now);
            &&& plan.len() == 1
            &&& plan[0] is End
            &&& plan[0]->End_id == linked->0.id
            &&& plan[0]->End_next_retry_at == now
            &&& e.ended_at >= linked->0.started_at ==> plan[0]->End_ended_at == e.ended_at
        },
        (e.db_session_id is None || linked is None || linked->0.push_status != PushStatus::Active)
            && (forall|j: int|
            0 <= j < actives.len() ==> (#[trigger] actives[j]).identity_id != e.identity.id) ==> {
            let plan = persist::end_plan(e, linked, actives, new_id, now);
            &&& plan.len() == 2
            &&& plan[0] is Insert
            &&& plan[0]->Insert_0.id == new_id
            &&& plan[0]->Insert_0.identity_id == e.identity.id
            &&& plan[0]->Insert_0.title == e.identity.title
            &&& plan[0]->Insert_0.started_at == e.started_at
            &&& plan[1] is End
            &&& plan[1]->End_id == new_id
            &&& plan[1]->End_next_retry_at == now
            &&& e.ended_at >= e.started_at ==> plan[1]->End_ended_at == e.ended_at
        },
{
}

// ---------------------------------------------------------------------------
// Requests
// ---------------------------------------------------------------------------

/// What a confirmed game is stored as: its fingerprint leads to the title, under an
/// identity that is made from the fingerprint, and that is not ignored any more.
pub proof fn law_confirmed_is_stored(fingerprint: String, title: String, actives: Seq<RowView>)
    ensures
        ({
            let cmd = PersistCmd::Confirm { fingerprint, title };
            let id = "user:"@ + fingerprint@;
            &&& persist::must_store(cmd, actives) == seq![
                StatementView::UpsertMapping {
                    fingerprint: fingerprint@,
                    title: title@,
                    identity_id: id,
                },
            ]
            &&& persist::may_store(cmd) == seq![StatementView::RemoveIgnored { identity_id: id }]
            &&& persist::forgets(cmd) is None
        }),
{
}

/// A game that is ignored is stored as ignored before its sessions are deleted, and is
/// forgotten; one that is not ignored any more is only taken off the list.
pub proof fn law_ignored_is_stored(identity_id: String, title: String, actives: Seq<RowView>)
    ensures
        ({
            let cmd = PersistCmd::Ignore { identity_id, title };
            &&& persist::must_store(cmd, actives).len() > 0
            &&& persist::must_store(cmd, actives)[0] == (StatementView::UpsertIgnored {
                identity_id: identity_id@,
                title: title@,
            })
            &&& persist::may_store(cmd).len() == 0
            &&& persist::forgets(cmd) == Some(identity_id@)
        }),
        ({
            let cmd = PersistCmd::Unignore { identity_id };
            &&& persist::must_store(cmd, actives) == seq![
                StatementView::RemoveIgnored { identity_id: identity_id@ },
            ]
            &&& persist::may_store(cmd).len() == 0
            &&& persist::forgets(cmd) is None
        }),
{
}

/// A game that the user adds is stored, and its identity is not ignored any more;
/// opening the database stores nothing.
pub proof fn law_added_is_stored(
    game: identity::ManualGame,
    identity_id: String,
    actives: Seq<RowView>,
)
    ensures
        ({
            let cmd = PersistCmd::AddManual { game, identity_id };
            &&& persist::must_store(cmd, actives) == seq![StatementView::UpsertManual(game@)]
            &&& persist::may_store(cmd) == seq![
                StatementView::RemoveIgnored { identity_id: identity_id@ },
            ]
            &&& persist::forgets(cmd) is None
        }),
        persist::must_store(PersistCmd::EnsureOpen, actives).len() == 0,
        persist::may_store(PersistCmd::EnsureOpen).len() == 0,
        persist::forgets(PersistCmd::EnsureOpen) is None,
{
}

/// An operation that took too long counts as one that failed; the user is told what
/// went wrong, and that the database has changed where it has.
pub proof fn law_what_went_wrong<T>(v: T, e: String)
    ensures
        persist::timed_outcome(Some(Ok::<T, String>(v))) == Ok::<T, Seq<char>>(v),
        persist::timed_outcome(Some(Err::<T, String>(e))) == Err::<T, Seq<char>>(e@),
        persist::timed_outcome(None::<Result<T, String>>) == Err::<T, Seq<char>>("db op timeout"@),
        persist::reply(Ok(())) == Ok::<(), Seq<char>>(()),
        persist::reply(Err(PersistError::Poison(e))) == Err::<(), Seq<char>>(e@),
        persist::reply(Err(PersistError::PathChanged)) == Err::<(), Seq<char>>(
            "db path changed"@,
        ),
{
}

} // verus!
