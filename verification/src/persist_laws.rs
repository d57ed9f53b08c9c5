//! What the changes that are worked out do to the stored sessions.

use vstd::prelude::*;

use crate::db;
use crate::db::PushStatus;
use crate::identity;
use crate::live_session;
use crate::persist;
use crate::time;

verus! {

/// What changes, one after the other, make of one stored session.
pub open spec fn row_after_all(
    r: Option<db::RowView>,
    cs: Seq<db::ChangeView>,
) -> Option<db::RowView>
    decreases cs.len(),
{
    if cs.len() == 0 {
        r
    } else {
        match row_after_all(r, cs.drop_last()) {
            Some(x) => db::row_after(x, cs.last()),
            None => None,
        }
    }
}

/// No change adds a session.
pub open spec fn no_inserts(cs: Seq<db::ChangeView>) -> bool {
    forall|i: int| 0 <= i < cs.len() ==> !(#[trigger] cs[i] is Insert)
}

/// Without additions each session changes by itself.
proof fn lemma_table_row(t: Map<Seq<char>, db::RowView>, cs: Seq<db::ChangeView>, k: Seq<char>)
    requires
        no_inserts(cs),
    ensures
        db::table_after_all(t, cs).contains_key(k) == (t.contains_key(k) && row_after_all(
            Some(t[k]),
            cs,
        ) is Some),
        db::table_after_all(t, cs).contains_key(k) ==> db::table_after_all(t, cs)[k]
            == row_after_all(Some(t[k]), cs)->0,
    decreases cs.len(),
{
    if cs.len() > 0 {
        let d = cs.drop_last();
        assert forall|i: int| 0 <= i < d.len() implies !(#[trigger] d[i] is Insert) by {
            assert(d[i] == cs[i]);
        }
        lemma_table_row(t, d, k);
        assert(!(cs[cs.len() - 1] is Insert));
    }
}

proof fn lemma_all_concat(r: Option<db::RowView>, a: Seq<db::ChangeView>, b: Seq<db::ChangeView>)
    ensures
        row_after_all(r, a + b) == row_after_all(row_after_all(r, a), b),
    decreases b.len(),
{
    if b.len() == 0 {
        assert(a + b == a);
    } else {
        assert((a + b).drop_last() == a + b.drop_last());
        lemma_all_concat(r, a, b.drop_last());
    }
}

/// The ends of rows are no additions.
proof fn lemma_ends_no_inserts(
    rows: Seq<db::RowView>,
    f: spec_fn(db::RowView) -> bool,
    at: spec_fn(db::RowView) -> int,
    now: int,
)
    ensures
        no_inserts(persist::ends_for(rows, f, at, now)),
    decreases rows.len(),
{
    if rows.len() > 0 {
        lemma_ends_no_inserts(rows.drop_last(), f, at, now);
    }
}

proof fn lemma_discards_no_inserts(rows: Seq<db::RowView>, id: Seq<char>, keep: int)
    ensures
        no_inserts(persist::discards_for(rows, id, keep)),
    decreases rows.len(),
{
    if rows.len() > 0 {
        lemma_discards_no_inserts(rows.drop_last(), id, keep);
    }
}

/// A session that is not among the rows that end stays as it is.
proof fn lemma_ends_untouched(
    rows: Seq<db::RowView>,
    f: spec_fn(db::RowView) -> bool,
    at: spec_fn(db::RowView) -> int,
    now: int,
    r: db::RowView,
)
    requires
        forall|j: int|
            0 <= j < rows.len() && f(#[trigger] rows[j]) && rows[j].push_status
                == PushStatus::Active ==> rows[j].id != r.id,
    ensures
        row_after_all(Some(r), persist::ends_for(rows, f, at, now)) == Some(r),
    decreases rows.len(),
{
    if rows.len() > 0 {
        let t = rows.drop_last();
        assert(forall|j: int| 0 <= j < t.len() ==> #[trigger] t[j] == rows[j]);
        lemma_ends_untouched(t, f, at, now, r);
        let last = rows[rows.len() - 1];
        let before = persist::ends_for(t, f, at, now);
        if let Some(c) = db::end_change(last, at(last), now) {
            if f(last) {
                assert(before.push(c).drop_last() == before);
            }
        }
    }
}

/// A session that is among the rows that end, ends.
proof fn lemma_ends_ended(
    rows: Seq<db::RowView>,
    f: spec_fn(db::RowView) -> bool,
    at: spec_fn(db::RowView) -> int,
    now: int,
    k: int,
)
    requires
        0 <= k < rows.len(),
        f(rows[k]),
        rows[k].push_status == PushStatus::Active,
        ids_apart(rows),
    ensures
        row_after_all(Some(rows[k]), persist::ends_for(rows, f, at, now)) == Some(
            db::ended(rows[k], at(rows[k]), now),
        ),
    decreases rows.len(),
{
    let t = rows.drop_last();
    assert(forall|j: int| 0 <= j < t.len() ==> #[trigger] t[j] == rows[j]);
    let last = rows[rows.len() - 1];
    let before = persist::ends_for(t, f, at, now);
    if k == rows.len() - 1 {
        assert forall|j: int|
            0 <= j < t.len() && f(#[trigger] t[j]) && t[j].push_status
                == PushStatus::Active implies t[j].id != rows[k].id by {
            assert(rows[j].id != rows[k].id);
        }
        lemma_ends_untouched(t, f, at, now, rows[k]);
        let c = db::end_change(last, at(last), now)->0;
        assert(before.push(c).drop_last() == before);
    } else {
        lemma_ends_ended(t, f, at, now, k);
        if let Some(c) = db::end_change(last, at(last), now) {
            if f(last) {
                assert(before.push(c).drop_last() == before);
                assert(rows[k].id != last.id);
            }
        }
    }
}

/// A session that is not among the rows that are deleted, or does not go on,
/// stays as it is.
proof fn lemma_discards_untouched(
    rows: Seq<db::RowView>,
    id: Seq<char>,
    keep: int,
    r: db::RowView,
)
    requires
        r.push_status != PushStatus::Active || forall|j: int|
            0 <= j < rows.len() && (#[trigger] rows[j]).identity_id == id && j != keep
                ==> rows[j].id != r.id,
    ensures
        row_after_all(Some(r), persist::discards_for(rows, id, keep)) == Some(r),
    decreases rows.len(),
{
    if rows.len() > 0 {
        let t = rows.drop_last();
        assert(forall|j: int| 0 <= j < t.len() ==> #[trigger] t[j] == rows[j]);
        lemma_discards_untouched(t, id, keep, r);
        let last = rows[rows.len() - 1];
        let before = persist::discards_for(t, id, keep);
        if last.identity_id == id && rows.len() - 1 != keep {
            let c = db::ChangeView::Discard { id: last.id };
            assert(before.push(c).drop_last() == before);
        }
    }
}

/// A session that is among the rows that are deleted, and goes on, is deleted.
proof fn lemma_discards_gone(rows: Seq<db::RowView>, id: Seq<char>, keep: int, k: int)
    requires
        0 <= k < rows.len(),
        rows[k].identity_id == id,
        k != keep,
        rows[k].push_status == PushStatus::Active,
        ids_apart(rows),
    ensures
        row_after_all(Some(rows[k]), persist::discards_for(rows, id, keep)) is None,
    decreases rows.len(),
{
    let t = rows.drop_last();
    assert(forall|j: int| 0 <= j < t.len() ==> #[trigger] t[j] == rows[j]);
    let last = rows[rows.len() - 1];
    let before = persist::discards_for(t, id, keep);
    if k == rows.len() - 1 {
        assert forall|j: int|
            0 <= j < t.len() && (#[trigger] t[j]).identity_id == id && j
                != keep implies t[j].id != rows[k].id by {
            assert(rows[j].id != rows[k].id);
        }
        lemma_discards_untouched(t, id, keep, rows[k]);
        let c = db::ChangeView::Discard { id: last.id };
        assert(before.push(c).drop_last() == before);
    } else {
        lemma_discards_gone(t, id, keep, k);
        if last.identity_id == id && rows.len() - 1 != keep {
            let c = db::ChangeView::Discard { id: last.id };
            assert(before.push(c).drop_last() == before);
        }
    }
}

/// No two rows have the same id.
pub open spec fn ids_apart(rows: Seq<db::RowView>) -> bool {
    forall|i: int, j: int| 0 <= i < j < rows.len() ==> (#[trigger] rows[i]).id != (#[trigger] rows[j]).id
}

/// `actives` are the sessions of the table that go on.
pub open spec fn lists_active(
    t: Map<Seq<char>, db::RowView>,
    actives: Seq<db::RowView>,
) -> bool {
    &&& ids_apart(actives)
    &&& forall|j: int|
        0 <= j < actives.len() ==> {
            let r = #[trigger] actives[j];
            t.contains_key(r.id) && t[r.id] == r && r.push_status == PushStatus::Active
        }
    &&& forall|k: Seq<char>| #[trigger]
        t.contains_key(k) && t[k].push_status == PushStatus::Active ==> exists|j: int|
            0 <= j < actives.len() && (#[trigger] actives[j]).id == k
}

/// The sessions of a list, by their ids.
pub open spec fn table_of(rows: Seq<db::RowView>) -> Map<Seq<char>, db::RowView> {
    Map::new(
        |k: Seq<char>| exists|i: int| 0 <= i < rows.len() && (#[trigger] rows[i]).id == k,
        |k: Seq<char>| rows[choose|i: int| 0 <= i < rows.len() && (#[trigger] rows[i]).id == k],
    )
}

/// Of a table whose rows can be read, with a text in each status column, those
/// rows that are listed as active can be read, and tell the sessions of the table
/// that go on.
pub proof fn law_active_list_is_complete(t: Seq<Seq<db::ColumnView>>)
    requires
        db::read_all(t) is Ok,
        ids_apart(db::read_all(t)->Ok_0),
        forall|i: int| 0 <= i < t.len() ==> (#[trigger] t[i])[9] is Text,
    ensures
        ({
            let all = table_of(db::read_all(t)->Ok_0);
            let listed = db::read_all(db::Query::Active.answer(t));
            &&& db::is_table(all)
            &&& listed is Ok
            &&& lists_active(all, listed->Ok_0)
        }),
{
    let q = db::Query::Active;
    let rows = db::read_all(t)->Ok_0;
    let all = table_of(rows);
    let answer = q.answer(t);
    db::law_read_all(t);
    db::law_answer(q, t);
    assert forall|i: int| 0 <= i < rows.len() implies all.contains_key((#[trigger] rows[i]).id)
        && all[rows[i].id] == rows[i] by {
        let j = choose|j: int| 0 <= j < rows.len() && (#[trigger] rows[j]).id == rows[i].id;
        if i < j {
            assert(rows[i].id != rows[j].id);
        } else if j < i {
            assert(rows[j].id != rows[i].id);
        }
    }
    assert forall|i: int, j: int| 0 <= i < t.len() && 0 <= j < t.len() && i != j implies t[i]
        != t[j] by {
        assert(session_reads(t[i], rows[i]) && session_reads(t[j], rows[j]));
        if i < j {
            assert(rows[i].id != rows[j].id);
        } else {
            assert(rows[j].id != rows[i].id);
        }
    }
    db::law_listed_once(q, t);
    assert forall|k: int| 0 <= k < answer.len() implies db::session_of(#[trigger] answer[k]) is Ok by {
        let i = choose|i: int| 0 <= i < t.len() && t[i] == answer[k];
        assert(db::session_of(t[i]) is Ok);
    }
    db::law_read_all(answer);
    let actives = db::read_all(answer)->Ok_0;
    assert forall|k: int| 0 <= k < actives.len() implies exists|i: int|
        0 <= i < t.len() && (#[trigger] t[i]) == answer[k] && rows[i] == #[trigger] actives[k] by {
        let i = choose|i: int| 0 <= i < t.len() && t[i] == answer[k];
        assert(session_reads(t[i], rows[i]) && session_reads(answer[k], actives[k]));
        assert(t[i] == answer[k] && rows[i] == actives[k]);
    }
    assert forall|j: int| 0 <= j < actives.len() implies {
        let r = #[trigger] actives[j];
        all.contains_key(r.id) && all[r.id] == r && r.push_status == PushStatus::Active
    } by {
        let i = choose|i: int|
            0 <= i < t.len() && (#[trigger] t[i]) == answer[j] && rows[i] == actives[j];
        assert(session_reads(t[i], rows[i]));
        assert(q.wants(answer[j]));
        assert(all.contains_key(rows[i].id));
    }
    assert forall|i: int, j: int| 0 <= i < j < actives.len() implies (#[trigger] actives[i]).id
        != (#[trigger] actives[j]).id by {
        let a = choose|a: int|
            0 <= a < t.len() && (#[trigger] t[a]) == answer[i] && rows[a] == actives[i];
        let b = choose|b: int|
            0 <= b < t.len() && (#[trigger] t[b]) == answer[j] && rows[b] == actives[j];
        assert(answer[i] != answer[j]);
        if a < b {
            assert(rows[a].id != rows[b].id);
        } else {
            assert(rows[b].id != rows[a].id);
        }
    }
    assert forall|k: Seq<char>| #[trigger]
        all.contains_key(k) && all[k].push_status == PushStatus::Active implies exists|j: int|
        0 <= j < actives.len() && (#[trigger] actives[j]).id == k by {
        let i = choose|i: int| 0 <= i < rows.len() && (#[trigger] rows[i]).id == k;
        assert(session_reads(t[i], rows[i]));
        assert(all[rows[i].id] == rows[i]);
        assert(t[i][9] is Text);
        assert(q.wants(t[i]));
        assert(t.contains(t[i]));
        let j = choose|j: int| 0 <= j < answer.len() && answer[j] == t[i];
        assert(session_reads(answer[j], actives[j]));
        assert(actives[j].id == k);
    }
}

/// The columns tell the session.
spec fn session_reads(c: Seq<db::ColumnView>, r: db::RowView) -> bool {
    db::session_of(c) == Ok::<db::RowView, Seq<char>>(r)
}

/// The sessions after the changes that bring them in line with the game that is
/// being played.
pub open spec fn reconciled(
    t: Map<Seq<char>, db::RowView>,
    p: persist::Playing,
    actives: Seq<db::RowView>,
    new_id: Seq<char>,
    now: int,
) -> Map<Seq<char>, db::RowView> {
    db::table_after_all(t, persist::reconcile_plan(p, actives, new_id, now))
}

/// What becomes of a stored session in the course of the ends and deletions.
proof fn lemma_reconciled_row(
    t: Map<Seq<char>, db::RowView>,
    p: persist::Playing,
    actives: Seq<db::RowView>,
    new_id: Seq<char>,
    now: int,
    k: Seq<char>,
)
    requires
        db::is_table(t),
        lists_active(t, actives),
        !t.contains_key(new_id),
        p.identity is Some,
        t.contains_key(k),
    ensures
        ({
            let after = reconciled(t, p, actives, new_id, now);
            let row = persist::played_row(p, actives, new_id, now);
            let last_seen = match p.last_seen_at {
                Some(s) => s,
                None => row.started_at,
            };
            if t[k].push_status != PushStatus::Active {
                after.contains_key(k) && after[k] == t[k]
            } else if t[k].identity_id != p.identity->0.id {
                after.contains_key(k) && after[k] == db::ended(t[k], last_seen, now)
            } else if k == row.id {
                after.contains_key(k) && after[k] == t[k]
            } else {
                !after.contains_key(k)
            }
        }),
{
    let i = p.identity->0;
    let row = persist::played_row(p, actives, new_id, now);
    let last_seen = match p.last_seen_at {
        Some(s) => s,
        None => row.started_at,
    };
    let f = |r: db::RowView| r.identity_id != i.id;
    let at = |r: db::RowView| last_seen;
    let ends = persist::ends_for(actives, f, at, now);
    let r = t[k];
    assert(r.id == k);
    lemma_ends_no_inserts(actives, f, at, now);
    db::lemma_oldest(actives, i.id);
    if r.push_status == PushStatus::Active {
        let j = choose|j: int| 0 <= j < actives.len() && (#[trigger] actives[j]).id == k;
        assert(actives[j] == r);
        if f(r) {
            lemma_ends_ended(actives, f, at, now, j);
        } else {
            assert forall|m: int|
                0 <= m < actives.len() && f(#[trigger] actives[m]) && actives[m].push_status
                    == PushStatus::Active implies actives[m].id != r.id by {
                if m < j {
                    assert(actives[m].id != actives[j].id);
                } else if j < m {
                    assert(actives[j].id != actives[m].id);
                }
            }
            lemma_ends_untouched(actives, f, at, now, r);
        }
    } else {
        assert forall|m: int|
            0 <= m < actives.len() && f(#[trigger] actives[m]) && actives[m].push_status
                == PushStatus::Active implies actives[m].id != r.id by {
            assert(t[actives[m].id] == actives[m]);
        }
        lemma_ends_untouched(actives, f, at, now, r);
    }
    match db::oldest_of(actives, i.id) {
        Some(keep) => {
            let discards = persist::discards_for(actives, i.id, keep);
            lemma_discards_no_inserts(actives, i.id, keep);
            let cs = ends + discards;
            assert(no_inserts(cs)) by {
                assert forall|m: int| 0 <= m < cs.len() implies !(#[trigger] cs[m] is Insert) by {
                    if m < ends.len() {
                        assert(cs[m] == ends[m]);
                    } else {
                        assert(cs[m] == discards[m - ends.len()]);
                    }
                }
            }
            lemma_table_row(t, cs, k);
            lemma_all_concat(Some(r), ends, discards);
            if r.push_status != PushStatus::Active {
                lemma_discards_untouched(actives, i.id, keep, r);
            } else if f(r) {
                lemma_discards_untouched(actives, i.id, keep, db::ended(r, last_seen, now));
            } else {
                let j = choose|j: int| 0 <= j < actives.len() && (#[trigger] actives[j]).id == k;
                if j == keep {
                    assert forall|m: int|
                        0 <= m < actives.len() && (#[trigger] actives[m]).identity_id == i.id && m
                            != keep implies actives[m].id != r.id by {
                        if m < j {
                            assert(actives[m].id != actives[j].id);
                        } else {
                            assert(actives[j].id != actives[m].id);
                        }
                    }
                    lemma_discards_untouched(actives, i.id, keep, r);
                } else {
                    lemma_discards_gone(actives, i.id, keep, j);
                    if j < keep {
                        assert(actives[j].id != actives[keep].id);
                    } else {
                        assert(actives[keep].id != actives[j].id);
                    }
                }
            }
        },
        None => {
            let c = db::ChangeView::Insert(row);
            lemma_insert_first(t, row, ends);
            let t1 = t.insert(row.id, row);
            lemma_table_row(t1, ends, k);
            assert(t1[k] == r);
            if r.push_status == PushStatus::Active && !f(r) {
                let j = choose|j: int| 0 <= j < actives.len() && (#[trigger] actives[j]).id == k;
                assert(actives[j].identity_id != i.id);
            }
        },
    }
}

/// A session that is added first is there for the changes that follow.
proof fn lemma_insert_first(
    t: Map<Seq<char>, db::RowView>,
    row: db::RowView,
    cs: Seq<db::ChangeView>,
)
    ensures
        db::table_after_all(t, seq![db::ChangeView::Insert(row)] + cs) == db::table_after_all(
            t.insert(row.id, row),
            cs,
        ),
    decreases cs.len(),
{
    let head = seq![db::ChangeView::Insert(row)];
    if cs.len() == 0 {
        assert(head + cs == head);
        assert(head.drop_last() == Seq::<db::ChangeView>::empty());
        assert(db::table_after_all(t, head.drop_last()) == t);
        assert(db::table_after(t, head.last()) =~= t.insert(row.id, row));
    } else {
        assert((head + cs).drop_last() == head + cs.drop_last());
        lemma_insert_first(t, row, cs.drop_last());
    }
}

/// While a game is being played, its session is stored, and it is the only one
/// that goes on: it is the oldest session of the game that went on, with its own
/// beginning, or else a new one.
pub proof fn law_one_session_goes_on(
    t: Map<Seq<char>, db::RowView>,
    p: persist::Playing,
    actives: Seq<db::RowView>,
    new_id: Seq<char>,
    now: int,
)
    requires
        db::is_table(t),
        lists_active(t, actives),
        !t.contains_key(new_id),
        p.identity is Some,
    ensures
        ({
            let after = reconciled(t, p, actives, new_id, now);
            let row = persist::played_row(p, actives, new_id, now);
            &&& after.contains_key(row.id)
            &&& after[row.id] == row
            &&& row.push_status == PushStatus::Active
            &&& row.identity_id == p.identity->0.id
            &&& forall|k: Seq<char>| #[trigger]
                after.contains_key(k) && after[k].push_status == PushStatus::Active ==> k == row.id
        }),
{
    let i = p.identity->0;
    let after = reconciled(t, p, actives, new_id, now);
    let row = persist::played_row(p, actives, new_id, now);
    let last_seen = match p.last_seen_at {
        Some(s) => s,
        None => row.started_at,
    };
    let f = |r: db::RowView| r.identity_id != i.id;
    let at = |r: db::RowView| last_seen;
    let ends = persist::ends_for(actives, f, at, now);
    db::lemma_oldest(actives, i.id);
    lemma_ends_no_inserts(actives, f, at, now);
    match db::oldest_of(actives, i.id) {
        Some(keep) => {
            assert(t[actives[keep].id] == actives[keep]);
            lemma_reconciled_row(t, p, actives, new_id, now, row.id);
            assert forall|k: Seq<char>| #[trigger]
                after.contains_key(k) && after[k].push_status == PushStatus::Active implies k
                == row.id by {
                let discards = persist::discards_for(actives, i.id, keep);
                lemma_discards_no_inserts(actives, i.id, keep);
                let cs = ends + discards;
                assert forall|m: int| 0 <= m < cs.len() implies !(#[trigger] cs[m] is Insert) by {
                    if m < ends.len() {
                        assert(cs[m] == ends[m]);
                    } else {
                        assert(cs[m] == discards[m - ends.len()]);
                    }
                }
                lemma_table_row(t, cs, k);
                assert(t.contains_key(k));
                lemma_reconciled_row(t, p, actives, new_id, now, k);
            }
        },
        None => {
            lemma_insert_first(t, row, ends);
            let t1 = t.insert(row.id, row);
            lemma_table_row(t1, ends, row.id);
            assert forall|m: int|
                0 <= m < actives.len() && f(#[trigger] actives[m]) && actives[m].push_status
                    == PushStatus::Active implies actives[m].id != row.id by {
                assert(t.contains_key(actives[m].id));
            }
            lemma_ends_untouched(actives, f, at, now, row);
            assert forall|k: Seq<char>| #[trigger]
                after.contains_key(k) && after[k].push_status == PushStatus::Active implies k
                == row.id by {
                lemma_table_row(t1, ends, k);
                if k != row.id {
                    assert(t.contains_key(k));
                    lemma_reconciled_row(t, p, actives, new_id, now, k);
                    if t[k].push_status == PushStatus::Active {
                        let j = choose|j: int|
                            0 <= j < actives.len() && (#[trigger] actives[j]).id == k;
                        assert(actives[j] == t[k]);
                        assert(actives[j].identity_id != i.id);
                    }
                }
            }
        },
    }
}

/// The stored beginning of a session wins over the one in memory: where the game
/// has a session that goes on, the kept beginning is that of the oldest one.
pub proof fn law_stored_start_wins(
    p: persist::Playing,
    actives: Seq<db::RowView>,
    new_id: Seq<char>,
    now: int,
    j: int,
)
    requires
        p.identity is Some,
        0 <= j < actives.len(),
        actives[j].identity_id == p.identity->0.id,
    ensures
        persist::kept_session(p, actives, new_id, now) is Some,
        (persist::kept_session(p, actives, new_id, now)->0).1 <= actives[j].started_at,
        exists|k: int|
            0 <= k < actives.len() && persist::kept_session(p, actives, new_id, now) == Some(
                ((#[trigger] actives[k]).id, actives[k].started_at),
            ),
{
    db::lemma_oldest(actives, p.identity->0.id);
    let k = db::oldest_of(actives, p.identity->0.id)->0;
    assert(persist::kept_session(p, actives, new_id, now) == Some(
        (actives[k].id, actives[k].started_at),
    ));
}

/// When another game is being played, a session that went on has ended when that
/// game was last seen; sessions that had ended stay as they are.
pub proof fn law_other_sessions_end(
    t: Map<Seq<char>, db::RowView>,
    p: persist::Playing,
    actives: Seq<db::RowView>,
    new_id: Seq<char>,
    now: int,
    k: Seq<char>,
)
    requires
        db::is_table(t),
        lists_active(t, actives),
        !t.contains_key(new_id),
        p.identity is Some,
        t.contains_key(k),
        t[k].push_status != PushStatus::Active || t[k].identity_id != p.identity->0.id,
    ensures
        ({
            let after = reconciled(t, p, actives, new_id, now);
            let last_seen = match p.last_seen_at {
                Some(s) => s,
                None => persist::played_row(p, actives, new_id, now).started_at,
            };
            after.contains_key(k) && after[k] == db::ended(t[k], last_seen, now)
        }),
{
    lemma_reconciled_row(t, p, actives, new_id, now, k);
}

/// Without a game, once there has been a sample, every session that went on ends:
/// it is kept, not deleted, and does not last longer than the longest gap.
pub proof fn law_orphans_end(
    t: Map<Seq<char>, db::RowView>,
    p: persist::Playing,
    actives: Seq<db::RowView>,
    new_id: Seq<char>,
    now: int,
    k: Seq<char>,
)
    requires
        db::is_table(t),
        lists_active(t, actives),
        p.identity is None,
        p.last_tick_at is Some,
        t.contains_key(k),
    ensures
        ({
            let after = reconciled(t, p, actives, new_id, now);
            &&& after.contains_key(k)
            &&& after[k] == db::ended(t[k], persist::orphan_end(t[k].started_at, now), now)
            &&& after[k].push_status != PushStatus::Active
            &&& persist::orphan_end(t[k].started_at, now) <= time::plus(
                t[k].started_at,
                live_session::SLEEP_SPLIT as int,
            )
        }),
{
    let f = |r: db::RowView| true;
    let at = |r: db::RowView| persist::orphan_end(r.started_at, now);
    let cs = persist::ends_for(actives, f, at, now);
    lemma_ends_no_inserts(actives, f, at, now);
    lemma_table_row(t, cs, k);
    let r = t[k];
    if r.push_status == PushStatus::Active {
        let j = choose|j: int| 0 <= j < actives.len() && (#[trigger] actives[j]).id == k;
        assert(actives[j] == r);
        lemma_ends_ended(actives, f, at, now, j);
    } else {
        assert forall|m: int|
            0 <= m < actives.len() && f(#[trigger] actives[m]) && actives[m].push_status
                == PushStatus::Active implies actives[m].id != r.id by {
            assert(t[actives[m].id] == actives[m]);
        }
        lemma_ends_untouched(actives, f, at, now, r);
    }
}

/// The sessions after the changes that store an end.
pub open spec fn with_end(
    t: Map<Seq<char>, db::RowView>,
    e: live_session::EndView,
    linked: Option<db::RowView>,
    actives: Seq<db::RowView>,
    new_id: Seq<char>,
    now: int,
) -> Map<Seq<char>, db::RowView> {
    db::table_after_all(t, persist::end_plan(e, linked, actives, new_id, now))
}

/// `linked` is the stored session that the ended one has.
pub open spec fn links(
    t: Map<Seq<char>, db::RowView>,
    e: live_session::EndView,
    linked: Option<db::RowView>,
) -> bool {
    match e.db_session_id {
        Some(id) => linked == (if t.contains_key(id) {
            Some(t[id])
        } else {
            None
        }),
        None => linked is None,
    }
}

/// A session that holds an end: it waits to be pushed, and ended at that time,
/// unless it began later.
pub open spec fn holds_end(r: db::RowView, ended_at: int) -> bool {
    r.push_status == PushStatus::Pending && r.ended_at == Some(
        db::end_time(r.started_at, ended_at),
    )
}

/// The session `k` holds the end, and is of the game, or is the one that the
/// ended session had.
pub open spec fn stored_under(
    t: Map<Seq<char>, db::RowView>,
    e: live_session::EndView,
    k: Seq<char>,
) -> bool {
    &&& t.contains_key(k)
    &&& holds_end(t[k], e.ended_at)
    &&& t[k].identity_id == e.identity.id || e.db_session_id == Some(k)
}

/// An end is never lost: after it was stored, some session of the game, or the
/// one that the ended session had, holds it and waits to be pushed.
pub proof fn law_end_is_stored(
    t: Map<Seq<char>, db::RowView>,
    e: live_session::EndView,
    linked: Option<db::RowView>,
    actives: Seq<db::RowView>,
    new_id: Seq<char>,
    now: int,
)
    requires
        db::is_table(t),
        lists_active(t, actives),
        links(t, e, linked),
        !t.contains_key(new_id),
    ensures
        exists|k: Seq<char>|
            stored_under(with_end(t, e, linked, actives, new_id, now), e, k),
{
    let after = with_end(t, e, linked, actives, new_id, now);
    let plan = persist::end_plan(e, linked, actives, new_id, now);
    if persist::linked_goes_on(e, linked) {
        let k = e.db_session_id->0;
        let c = db::end_change(linked->0, e.ended_at, now)->0;
        assert(plan.drop_last() == Seq::<db::ChangeView>::empty());
        assert(db::table_after_all(t, plan.drop_last()) == t);
        assert(after == db::table_after(t, c));
        assert(t[k].id == k);
        assert(stored_under(after, e, k));
    } else if persist::has_identity(actives, e.identity.id) {
        let f = |r: db::RowView| r.identity_id == e.identity.id;
        let at = |r: db::RowView| e.ended_at;
        let j = choose|j: int|
            0 <= j < actives.len() && (#[trigger] actives[j]).identity_id == e.identity.id;
        let k = actives[j].id;
        lemma_ends_no_inserts(actives, f, at, now);
        lemma_table_row(t, plan, k);
        lemma_ends_ended(actives, f, at, now, j);
        assert(stored_under(after, e, k));
    } else {
        let row = db::opened(e.identity, e.started_at, new_id);
        let c = db::end_change(row, e.ended_at, now)->0;
        assert(plan == seq![db::ChangeView::Insert(row)] + seq![c]);
        lemma_insert_first(t, row, seq![c]);
        let t1 = t.insert(row.id, row);
        assert(seq![c].drop_last() == Seq::<db::ChangeView>::empty());
        assert(db::table_after_all(t1, seq![c].drop_last()) == t1);
        assert(after == db::table_after(t1, c));
        assert(stored_under(after, e, new_id));
    }
}

/// Storing an end changes no other session: one that has ended stays as it is,
/// and so does one of another game, unless it is the one that the ended session
/// had.
pub proof fn law_end_keeps_others(
    t: Map<Seq<char>, db::RowView>,
    e: live_session::EndView,
    linked: Option<db::RowView>,
    actives: Seq<db::RowView>,
    new_id: Seq<char>,
    now: int,
    k: Seq<char>,
)
    requires
        db::is_table(t),
        lists_active(t, actives),
        links(t, e, linked),
        !t.contains_key(new_id),
        t.contains_key(k),
        t[k].push_status != PushStatus::Active || (t[k].identity_id != e.identity.id
            && e.db_session_id != Some(k)),
    ensures
        with_end(t, e, linked, actives, new_id, now).contains_key(k),
        with_end(t, e, linked, actives, new_id, now)[k] == t[k],
{
    let after = with_end(t, e, linked, actives, new_id, now);
    let plan = persist::end_plan(e, linked, actives, new_id, now);
    assert(t[k].id == k);
    if persist::linked_goes_on(e, linked) {
        let c = db::end_change(linked->0, e.ended_at, now)->0;
        let id = e.db_session_id->0;
        assert(plan.drop_last() == Seq::<db::ChangeView>::empty());
        assert(db::table_after_all(t, plan.drop_last()) == t);
        assert(after == db::table_after(t, c));
        assert(t[id].id == id);
    } else if persist::has_identity(actives, e.identity.id) {
        let f = |r: db::RowView| r.identity_id == e.identity.id;
        let at = |r: db::RowView| e.ended_at;
        lemma_ends_no_inserts(actives, f, at, now);
        lemma_table_row(t, plan, k);
        assert forall|m: int|
            0 <= m < actives.len() && f(#[trigger] actives[m]) && actives[m].push_status
                == PushStatus::Active implies actives[m].id != t[k].id by {
            assert(t[actives[m].id] == actives[m]);
        }
        lemma_ends_untouched(actives, f, at, now, t[k]);
    } else {
        let row = db::opened(e.identity, e.started_at, new_id);
        let c = db::end_change(row, e.ended_at, now)->0;
        assert(plan == seq![db::ChangeView::Insert(row)] + seq![c]);
        lemma_insert_first(t, row, seq![c]);
        let t1 = t.insert(row.id, row);
        assert(seq![c].drop_last() == Seq::<db::ChangeView>::empty());
        assert(db::table_after_all(t1, seq![c].drop_last()) == t1);
        assert(after == db::table_after(t1, c));
    }
}

} // verus!
