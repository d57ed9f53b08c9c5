//! Sessions: while they go on, in the table, and as the user sees them.

use qmonitor::auth::TokenCache;
use qmonitor::config::AppConfig;
use qmonitor::db::{
    backoff_secs, can_purge, count_pending, end_row, end_session_at, get_active,
    ignored_from_row, list_active, list_due_pushes, list_sessions, manual_from_row,
    mapping_from_row, mark_push_failed, mark_synced, oldest_index, open_row, open_session_at,
    purge_synced, row_values, session_from_row, sessions_from_rows, value_i64, value_text,
    value_time, value_u32, DbValue, PushStatus, SessionChange, SessionRow, DUE_LIMIT,
};
use qmonitor::host::HostOs;
use qmonitor::identity::catalog::LocalCatalog;
use qmonitor::identity::detectable::DetectableCatalog;
use qmonitor::identity::resolver::{IdentityPipeline, UserMapping};
use qmonitor::identity::steam_library::{SteamGame, SteamLibraryIndex};
use qmonitor::identity::{
    Confidence, GameIdentity, IgnoredIdentity, ManualGame, ProcessSnapshot,
};
use qmonitor::keyed::KeyedList;
use qmonitor::live_session::{DetectSample, LiveSession, PendingEnd};
use qmonitor::persist::{
    adopt_session, after_push, after_store, ensure_open, persist_reply, plan_cmd, plan_request,
    push_outcome, put_back, reconcile_live, reconcile_table, store_end, take_pending, timed,
    write_pending_end, DbView, PersistCmd, PersistError, PurgeTimer, Statement, PURGE_ROUNDS,
};
use qmonitor::runtime::{
    can_push, detect_sample, prune_due, push_target, LastSeen, Snapshot,
};
use qmonitor::session::{list_trackable_games, overlay_active, AppState};
use qmonitor::time::Timestamp;

fn game(id: &str, title: &str) -> GameIdentity {
    GameIdentity {
        id: id.into(),
        title: title.into(),
        steam_app_id: None,
        exe: Some(format!("{title}.exe")),
        confidence: Confidence::High,
        source: "test".into(),
        fingerprint: None,
    }
}

fn sample_at(at: Timestamp, primary: Option<GameIdentity>) -> DetectSample {
    DetectSample { observed_at: at, primary }
}

fn at(secs: i64) -> Timestamp {
    Timestamp::from_nanos(secs as i128 * 1_000_000_000).unwrap()
}

/// Does to `rows` what a change says.
fn apply(rows: &mut Vec<SessionRow>, change: SessionChange) {
    match change {
        SessionChange::Insert(row) => rows.push(row),
        SessionChange::End { id, ended_at, duration_secs, next_retry_at } => {
            for row in rows.iter_mut().filter(|r| r.id == id) {
                row.ended_at = Some(ended_at);
                row.duration_secs = Some(duration_secs);
                row.push_status = PushStatus::Pending;
                row.next_retry_at = Some(next_retry_at);
            }
        }
        SessionChange::Discard { id } => {
            rows.retain(|r| !(r.id == id && r.push_status == PushStatus::Active))
        }
        SessionChange::Synced { id, acked_at } => {
            for row in rows.iter_mut().filter(|r| r.id == id) {
                row.push_status = PushStatus::Synced;
                row.acked_at = Some(acked_at);
                row.last_error = None;
                row.next_retry_at = None;
            }
        }
        SessionChange::Failed { id, error, retry_count, next_retry_at } => {
            for row in rows.iter_mut().filter(|r| r.id == id) {
                row.push_status = PushStatus::Failed;
                row.last_error = Some(error.clone());
                row.retry_count = retry_count;
                row.next_retry_at = Some(next_retry_at);
            }
        }
        SessionChange::Purge { acked_before } => rows.retain(|r| {
            !(r.push_status == PushStatus::Synced
                && r.acked_at.is_some_and(|t| t.is_before(&acked_before)))
        }),
    }
}

fn apply_all(rows: &mut Vec<SessionRow>, changes: Vec<SessionChange>) {
    for change in changes {
        apply(rows, change);
    }
}

/// The stored rows.
fn table(rows: &[SessionRow]) -> Vec<Vec<DbValue>> {
    rows.iter().map(row_values).collect()
}

/// The sessions that go on.
fn active(rows: &[SessionRow]) -> Vec<SessionRow> {
    list_active(&table(rows)).unwrap()
}

/// The sessions to push.
fn due(rows: &[SessionRow], now: Timestamp) -> Vec<SessionRow> {
    list_due_pushes(&table(rows), now).unwrap()
}

/// Stores what `live` holds.
fn flush_live(rows: &mut Vec<SessionRow>, live: &mut LiveSession, now: Timestamp) {
    for end in take_pending(live) {
        let linked = rows.iter().find(|r| Some(&r.id) == end.db_session_id.as_ref()).cloned();
        let changes =
            write_pending_end(&end, &linked, &active(rows), format!("new-{}", rows.len()), now);
        apply_all(rows, changes);
    }
    let (changes, keep) = reconcile_live(
        &live.identity,
        live.started_at,
        live.last_seen_at,
        live.last_tick_at,
        &active(rows),
        format!("new-{}", rows.len()),
        now,
    );
    apply_all(rows, changes);
    if let Some((id, started)) = keep {
        let identity_id = live.identity_id().unwrap().to_string();
        adopt_session(live, &identity_id, id, started);
    }
}

// ---------------------------------------------------------------------------
// A session that goes on
// ---------------------------------------------------------------------------

#[test]
fn tracks_start_without_db() {
    let mut live = LiveSession::new();
    let t0 = Timestamp::now();
    live.apply(&sample_at(t0, Some(game("steam:1", "RL"))));
    assert_eq!(live.identity_id(), Some("steam:1"));
    assert_eq!(live.started_at, Some(t0));
    assert!(live.pending_ends.is_empty());
}

#[test]
fn pending_end_after_miss_grace_even_without_db() {
    let mut live = LiveSession::new();
    let t0 = Timestamp::now();
    live.apply(&sample_at(t0, Some(game("steam:1", "RL"))));
    live.apply(&sample_at(t0.plus_seconds(3), None));
    assert!(live.is_tracking(), "still in grace");
    assert!(live.pending_ends.is_empty());

    live.apply(&sample_at(t0.plus_seconds(9), None));
    assert!(!live.is_tracking());
    assert_eq!(live.pending_ends.len(), 1);
    assert_eq!(live.pending_ends[0].ended_at, t0);
    assert_eq!(live.pending_ends[0].started_at, t0);
}

#[test]
fn hang_with_game_gone_ends_immediately() {
    let mut live = LiveSession::new();
    let t0 = Timestamp::now();
    live.apply(&sample_at(t0, Some(game("steam:1", "RL"))));
    live.apply(&sample_at(t0.plus_seconds(3_600), None));
    assert_eq!(live.pending_ends.len(), 1);
    assert_eq!(live.pending_ends[0].ended_at, t0);
    assert!(!live.is_tracking());
}

#[test]
fn sleep_split_while_still_playing() {
    let mut live = LiveSession::new();
    let t0 = Timestamp::now();
    let rl = game("steam:1", "RL");
    live.apply(&sample_at(t0, Some(rl.clone())));
    live.db_session_id = Some("db-1".into());
    let t1 = t0.plus_seconds(7_200);
    live.apply(&sample_at(t1, Some(rl)));
    assert_eq!(live.pending_ends.len(), 1);
    assert_eq!(live.pending_ends[0].db_session_id.as_deref(), Some("db-1"));
    assert_eq!(live.pending_ends[0].ended_at, t0);
    assert_eq!(live.identity_id(), Some("steam:1"));
    assert_eq!(live.started_at, Some(t1));
    assert!(live.db_session_id.is_none());
}

#[test]
fn identity_switch_queues_end_then_starts() {
    let mut live = LiveSession::new();
    let t0 = Timestamp::now();
    live.apply(&sample_at(t0, Some(game("steam:1", "A"))));
    live.apply(&sample_at(t0.plus_seconds(3), Some(game("steam:2", "B"))));
    assert_eq!(live.pending_ends.len(), 1);
    assert_eq!(live.pending_ends[0].identity.id, "steam:1");
    assert_eq!(live.identity_id(), Some("steam:2"));
}

#[test]
fn flicker_within_grace_does_not_end() {
    let mut live = LiveSession::new();
    let t0 = Timestamp::now();
    let rl = game("steam:1", "RL");
    live.apply(&sample_at(t0, Some(rl.clone())));
    live.apply(&sample_at(t0.plus_seconds(3), None));
    live.apply(&sample_at(t0.plus_seconds(6), Some(rl)));
    assert!(live.pending_ends.is_empty());
    assert_eq!(live.started_at, Some(t0));
    assert_eq!(live.last_seen_at, Some(t0.plus_seconds(6)));
}

#[test]
fn clearing_forgets_the_session() {
    let mut live = LiveSession::new();
    live.apply_at(&sample_at(at(100), Some(game("steam:1", "A"))), at(0));
    assert!(live.is_tracking_id("steam:1"));
    assert!(!live.is_tracking_id("steam:2"));
    live.clear_identity();
    assert!(!live.is_tracking());
    assert!(live.identity_id().is_none());
    assert!(live.pending_ends.is_empty());
}

// ---------------------------------------------------------------------------
// The table
// ---------------------------------------------------------------------------

fn sample_identity() -> GameIdentity {
    GameIdentity {
        id: "steam:570".into(),
        title: "Dota 2".into(),
        steam_app_id: Some(570),
        exe: Some("dota2.exe".into()),
        confidence: Confidence::High,
        source: "steam".into(),
        fingerprint: None,
    }
}

#[test]
fn embedded_turso_session_lifecycle_and_purge() {
    let now = Timestamp::now();
    let mut rows = Vec::new();
    let (row, is_new) = open_session_at(&rows, &sample_identity(), now, "one".into());
    assert!(is_new);
    assert_eq!(row.push_status, PushStatus::Active);
    apply(&mut rows, SessionChange::Insert(row.clone()));
    let (ended, end) = end_session_at(&Some(row.clone()), now, now).unwrap();
    assert_eq!(ended.push_status, PushStatus::Pending);
    apply(&mut rows, end.unwrap());
    assert_eq!(rows[0].push_status, PushStatus::Pending);
    apply(&mut rows, mark_synced(&row.id, now));
    rows[0].acked_at = Some(now.plus_seconds(-40 * 86_400));
    assert!(can_purge(30, now));
    apply(&mut rows, purge_synced(30, now));
    assert!(list_sessions(&table(&rows), 10).unwrap().is_empty());
}

#[test]
fn open_session_reuses_existing_active_for_same_identity() {
    let now = Timestamp::now();
    let mut rows = Vec::new();
    let (a, _) = open_session_at(&active(&rows), &sample_identity(), now, "one".into());
    apply(&mut rows, SessionChange::Insert(a.clone()));
    let (b, is_new) = open_session_at(&active(&rows), &sample_identity(), now, "two".into());
    assert!(!is_new);
    assert_eq!(a.id, b.id);
    assert_eq!(active(&rows).len(), 1);
}

#[test]
fn discard_session_removes_active_without_pending_push() {
    let now = Timestamp::now();
    let mut rows = vec![open_row(&sample_identity(), now, "one".into())];
    apply(&mut rows, SessionChange::Discard { id: "one".into() });
    assert!(active(&rows).is_empty());
    assert!(due(&rows, now).is_empty());
    assert!(rows.is_empty());
}

#[test]
fn list_active_oldest_first() {
    let now = Timestamp::now();
    let older = open_row(&sample_identity(), now.plus_seconds(-600), "older".into());
    let newer = open_row(&sample_identity(), now.plus_seconds(-60), "newer".into());
    let rows = vec![newer.clone(), older.clone()];
    let actives = active(&rows);
    assert_eq!(actives.len(), 2);
    assert_eq!(actives[0].id, older.id);
    assert_eq!(actives[1].id, newer.id);
    assert_eq!(get_active(&table(&rows)).unwrap().unwrap().id, older.id);
    assert_eq!(oldest_index(&rows, "steam:570"), Some(1));
    assert_eq!(oldest_index(&rows, "steam:1"), None);
}

#[test]
fn a_session_ends_once_and_not_before_it_began() {
    let row = open_row(&sample_identity(), at(1_000), "one".into());
    let ended = end_row(&row, at(1_090), at(2_000));
    assert_eq!(ended.duration_secs, Some(90));
    assert_eq!(ended.next_retry_at, Some(at(2_000)));
    let (again, change) = end_session_at(&Some(ended.clone()), at(5_000), at(5_000)).unwrap();
    assert!(change.is_none());
    assert_eq!(again.ended_at, ended.ended_at);
    assert_eq!(end_session_at(&None, at(5_000), at(5_000)).unwrap_err(), "missing");
    let early = end_row(&row, at(500), at(2_000));
    assert_eq!(early.ended_at, Some(at(1_000)));
    assert_eq!(early.duration_secs, Some(0));
}

#[test]
fn failed_pushes_wait_longer_and_longer() {
    assert_eq!(backoff_secs(0), 30);
    assert_eq!(backoff_secs(1), 120);
    assert_eq!(backoff_secs(2), 600);
    assert_eq!(backoff_secs(3), 3_600);
    assert_eq!(backoff_secs(-1), 3_600);
    let mut rows = vec![end_row(&open_row(&sample_identity(), at(10), "one".into()), at(20), at(20))];
    assert_eq!(due(&rows, at(20)).len(), 1);
    apply(&mut rows, mark_push_failed(&"one".to_string(), &"HTTP 500".to_string(), 1, at(100)));
    assert_eq!(rows[0].push_status, PushStatus::Failed);
    assert_eq!(rows[0].next_retry_at, Some(at(220)));
    assert!(due(&rows, at(219)).is_empty());
    assert_eq!(due(&rows, at(220)).len(), 1);
    assert_eq!(count_pending(&table(&rows)), 1);
    apply(&mut rows, mark_synced(&"one".to_string(), at(300)));
    assert_eq!(count_pending(&table(&rows)), 0);
    assert!(due(&rows, at(400)).is_empty());
}

#[test]
fn rows_with_an_unknown_status_are_passed_over() {
    let row = end_row(&open_row(&sample_identity(), at(10), "one".into()), at(20), at(20));
    let mut stored = table(&[row]);
    assert_eq!(list_due_pushes(&stored, at(20)).unwrap().len(), 1);
    assert_eq!(sessions_from_rows(&stored).unwrap()[0].id, "one");
    stored[0][9] = DbValue::Text("paused".into());
    assert!(list_due_pushes(&stored, at(20)).unwrap().is_empty());
    assert_eq!(count_pending(&stored), 0);
    assert_eq!(sessions_from_rows(&stored).unwrap()[0].push_status, PushStatus::Pending);
    stored[0][9] = DbValue::Text("failed".into());
    stored[0][12] = DbValue::Text("never".into());
    assert!(list_due_pushes(&stored, at(20)).unwrap().is_empty());
    assert_eq!(count_pending(&stored), 1);
    stored[0][12] = DbValue::Text("0".into());
    assert_eq!(list_due_pushes(&stored, at(20)).unwrap().len(), 1);
    stored[0][0] = DbValue::Null;
    assert_eq!(list_due_pushes(&stored, at(20)).unwrap_err(), "id");
    assert_eq!(sessions_from_rows(&stored).unwrap_err(), "id");
}

#[test]
fn only_the_rows_that_are_asked_for_are_read() {
    let mut rows: Vec<SessionRow> = (0..120)
        .map(|i| end_row(&open_row(&sample_identity(), at(1_000 + i), format!("s{i}")), at(2_000 + i), at(20)))
        .collect();
    rows.push(open_row(&sample_identity(), at(5_000), "on".into()));
    let mut stored = table(&rows);
    stored[0][0] = DbValue::Null;
    assert_eq!(list_active(&stored).unwrap()[0].id, "on");
    assert_eq!(list_sessions(&stored, 100).unwrap().len(), 100);
    assert_eq!(DbView::of_table(&stored).unwrap().history.len(), 100);
    assert_eq!(list_sessions(&stored, -1).unwrap_err(), "id");
    assert_eq!(list_due_pushes(&stored, at(3_000)).unwrap_err(), "id");
    stored[0] = row_values(&rows[0]);
    stored[119][6] = DbValue::Text("9".into());
    assert_eq!(list_due_pushes(&stored, at(3_000)).unwrap()[0].id, "s0");
    assert!(list_sessions(&stored, 100).is_err());
    assert!(DbView::of_table(&stored).is_err());
    assert_eq!(get_active(&stored).unwrap().unwrap().id, "on");
    stored[120][1] = DbValue::Null;
    assert_eq!(get_active(&stored).unwrap_err(), "identity");
    assert_eq!(DbView::of_table(&stored).unwrap_err(), "identity");
}

#[test]
fn stored_times_are_compared_as_texts() {
    let mut stored = table(&[
        open_row(&sample_identity(), at(0), "utc".into()),
        open_row(&sample_identity(), at(60), "offset".into()),
    ]);
    stored[1][6] = DbValue::Text("1969-12-31T23:01:00-01:00".into());
    let listed = list_active(&stored).unwrap();
    assert_eq!(listed[0].id, "offset");
    assert_eq!(listed[0].started_at, at(60));
    assert_eq!(list_sessions(&stored, 1).unwrap()[0].id, "utc");

    let row = end_row(&open_row(&sample_identity(), at(10), "one".into()), at(20), at(20));
    let mut stored = table(&[row]);
    stored[0][12] = DbValue::Text("1970-01-01T00:00:20Z".into());
    assert!(list_due_pushes(&stored, at(20)).unwrap().is_empty());
    stored[0][12] = DbValue::Text("1970-01-01T00:00:20+00:00".into());
    assert_eq!(list_due_pushes(&stored, at(20)).unwrap().len(), 1);
    stored[0][12] = DbValue::Null;
    stored[0][7] = DbValue::Text("some day".into());
    let due = list_due_pushes(&stored, at(20)).unwrap();
    assert_eq!(due[0].ended_at, None);
    stored[0][7] = DbValue::Null;
    assert!(list_due_pushes(&stored, at(20)).unwrap().is_empty());
}

#[test]
fn written_times_stand_as_the_times_do() {
    let nanos: [i128; 6] = [0, 1, 1_000, 1_000_000, 999_999_999, 1_000_000_000];
    let texts: Vec<String> =
        nanos.iter().map(|n| Timestamp::from_nanos(*n).unwrap().to_rfc3339()).collect();
    for i in 1..texts.len() {
        assert!(texts[i - 1] < texts[i]);
    }
    let leap = Timestamp::parse("2016-12-31T23:59:60.5Z").unwrap().to_rfc3339();
    assert!(Timestamp::parse("2016-12-31T23:59:59.999Z").unwrap().to_rfc3339() < leap);
    assert!(leap < Timestamp::parse("2017-01-01T00:00:00Z").unwrap().to_rfc3339());
}

#[test]
fn no_more_than_a_batch_is_due() {
    let rows: Vec<SessionRow> = (0..30)
        .map(|i| {
            end_row(&open_row(&sample_identity(), at(10), format!("s{i}")), at(1_000 - i), at(20))
        })
        .collect();
    let due = due(&rows, at(2_000));
    assert_eq!(due.len(), DUE_LIMIT);
    assert_eq!(due[0].id, "s29");
    assert_eq!(list_sessions(&table(&rows), 0).unwrap().len(), 0);
    assert_eq!(list_sessions(&table(&rows), -1).unwrap().len(), 30);
    assert_eq!(list_sessions(&table(&rows), 5).unwrap().len(), 5);
}

#[test]
fn status_texts_read_back() {
    for status in
        [PushStatus::Active, PushStatus::Pending, PushStatus::Synced, PushStatus::Failed]
    {
        assert_eq!(PushStatus::parse(status.as_str()), status);
    }
    assert_eq!(PushStatus::parse("?"), PushStatus::Pending);
}

#[test]
fn a_stored_row_reads_back() {
    let mut row = end_row(&open_row(&sample_identity(), at(10), "one".into()), at(70), at(80));
    row.last_error = Some("HTTP 500".into());
    let back = session_from_row(&row_values(&row)).unwrap();
    assert_eq!(back.id, "one");
    assert_eq!(back.title, "Dota 2");
    assert_eq!(back.steam_app_id, Some(570));
    assert_eq!(back.started_at, at(10));
    assert_eq!(back.ended_at, Some(at(70)));
    assert_eq!(back.duration_secs, Some(60));
    assert_eq!(back.push_status, PushStatus::Pending);
    assert_eq!(back.next_retry_at, Some(at(80)));
    assert_eq!(back.last_error.as_deref(), Some("HTTP 500"));
}

#[test]
fn broken_rows_are_refused() {
    let row = open_row(&sample_identity(), at(10), "one".into());
    for (column, error) in
        [(0, "id"), (1, "identity"), (2, "title"), (5, "source"), (6, "started")]
    {
        let mut values = row_values(&row);
        values[column] = DbValue::Null;
        assert_eq!(session_from_row(&values).unwrap_err(), error);
    }
    let mut values = row_values(&row);
    values[6] = DbValue::Text("yesterday".into());
    assert!(session_from_row(&values).is_err());
    let text = |s: &str| DbValue::Text(s.into());
    assert_eq!(mapping_from_row(&vec![text("f"), text("t"), text("i")]).unwrap().title, "t");
    assert_eq!(mapping_from_row(&vec![DbValue::Null, text("t"), text("i")]).unwrap_err(), "fingerprint");
    assert_eq!(ignored_from_row(&vec![text("i"), text("t")]).unwrap().identity_id, "i");
    assert_eq!(ignored_from_row(&vec![text("i"), DbValue::Null]).unwrap_err(), "title");
    let manual = manual_from_row(&vec![
        text("m"),
        text("Hades"),
        text("Hades.exe"),
        DbValue::Null,
        DbValue::Integer(1145360),
    ])
    .unwrap();
    assert_eq!(manual.steam_app_id, Some(1145360));
    assert!(manual.path_hint.is_none());
    assert_eq!(
        manual_from_row(&vec![text("m"), text("t"), DbValue::Null, DbValue::Null, DbValue::Null])
            .unwrap_err(),
        "exe_name"
    );
}

#[test]
fn values_of_columns() {
    assert_eq!(value_text(&DbValue::Text("x".into())).as_deref(), Some("x"));
    assert_eq!(value_text(&DbValue::Other("Real(1.0)".into())).as_deref(), Some("Real(1.0)"));
    assert!(value_text(&DbValue::Null).is_none());
    assert_eq!(value_i64(&DbValue::Integer(-3)), Some(-3));
    assert!(value_i64(&DbValue::Text("3".into())).is_none());
    assert_eq!(value_u32(&DbValue::Integer(-1)), Some(u32::MAX));
    assert_eq!(value_time(&DbValue::Text("1970-01-01T00:01:40Z".into())), Some(at(100)));
    assert!(value_time(&DbValue::Text("then".into())).is_none());
}

// ---------------------------------------------------------------------------
// Storing
// ---------------------------------------------------------------------------

#[test]
fn timed_poison_on_timeout() {
    match timed::<()>(None).unwrap_err() {
        PersistError::Poison(msg) => assert!(msg.contains("timeout"), "{msg}"),
        PersistError::PathChanged => panic!("expected timeout poison"),
    }
    assert_eq!(timed(Some(Ok(5))).unwrap(), 5);
    match timed::<()>(Some(Err("disk full".into()))).unwrap_err() {
        PersistError::Poison(msg) => assert_eq!(msg, "disk full"),
        PersistError::PathChanged => panic!("expected poison"),
    }
}

#[test]
fn replies_name_the_error() {
    assert!(persist_reply(&Ok(())).is_ok());
    assert_eq!(persist_reply(&Err(PersistError::Poison("x".into()))).unwrap_err(), "x");
    assert_eq!(persist_reply(&Err(PersistError::PathChanged)).unwrap_err(), "db path changed");
}

#[test]
fn recover_end_orphans_instead_of_discard() {
    let now = Timestamp::now();
    let apex = game("steam:1172470", "Apex");
    let row = open_row(&apex, now.plus_seconds(-3_600), "orphan".into());
    let mut rows = vec![row.clone()];
    let mut live = LiveSession::new();
    live.last_tick_at = Some(now);
    flush_live(&mut rows, &mut live, now);
    assert!(active(&rows).is_empty());
    let due = due(&rows, now);
    assert_eq!(due.len(), 1);
    assert_eq!(due[0].id, row.id);
    assert!(rows.iter().any(|r| r.id == row.id));
}

#[test]
fn pending_end_without_db_row_inserts_and_ends() {
    let now = Timestamp::now();
    let t0 = now.plus_seconds(-3_600);
    let t1 = t0.plus_seconds(3_000);
    let mut rows = Vec::new();
    let mut live = LiveSession::new();
    live.pending_ends = vec![PendingEnd {
        identity: game("steam:1", "RL"),
        db_session_id: None,
        started_at: t0,
        ended_at: t1,
    }];
    live.last_tick_at = Some(now);
    flush_live(&mut rows, &mut live, now);
    assert!(active(&rows).is_empty());
    let due = due(&rows, now);
    assert_eq!(due.len(), 1);
    assert_eq!(due[0].started_at, t0);
    assert_eq!(due[0].ended_at, Some(t1));
}

#[test]
fn db_active_started_at_wins_over_memory() {
    let now = Timestamp::now();
    let apex = game("steam:1", "RL");
    let db_start = now.plus_seconds(-1_200);
    let opened = open_row(&apex, db_start, "opened".into());
    let mut rows = vec![opened.clone()];
    let mut live = LiveSession::new();
    live.identity = Some(apex);
    live.started_at = Some(now);
    live.last_seen_at = Some(now);
    live.last_tick_at = Some(now);
    flush_live(&mut rows, &mut live, now);
    assert_eq!(live.db_session_id.as_deref(), Some(opened.id.as_str()));
    assert_eq!(live.started_at, Some(db_start));
    assert_eq!(active(&rows).len(), 1);
}

#[test]
fn flush_live_opens_when_playing() {
    let now = Timestamp::now();
    let mut rows = Vec::new();
    let mut live = LiveSession::new();
    live.apply(&sample_at(now, Some(game("steam:1172470", "Apex"))));
    flush_live(&mut rows, &mut live, now);
    let actives = active(&rows);
    assert_eq!(actives.len(), 1);
    assert_eq!(actives[0].identity_id, "steam:1172470");
}

#[test]
fn one_session_of_a_title_goes_on_and_others_end() {
    let now = Timestamp::now();
    let apex = game("steam:1", "RL");
    let mut rows = vec![
        open_row(&apex, now.plus_seconds(-100), "newer".into()),
        open_row(&apex, now.plus_seconds(-500), "older".into()),
        open_row(&game("steam:2", "Other"), now.plus_seconds(-900), "other".into()),
    ];
    let mut live = LiveSession::new();
    live.apply(&sample_at(now, Some(apex)));
    flush_live(&mut rows, &mut live, now);
    let actives = active(&rows);
    assert_eq!(actives.len(), 1);
    assert_eq!(actives[0].id, "older");
    assert_eq!(live.db_session_id.as_deref(), Some("older"));
    let other = rows.iter().find(|r| r.id == "other").unwrap();
    assert_eq!(other.push_status, PushStatus::Pending);
    assert_eq!(other.ended_at, Some(now));
    assert!(rows.iter().all(|r| r.id != "newer"));
}

#[test]
fn ends_that_were_not_stored_wait_in_order() {
    let end = |id: &str| PendingEnd {
        identity: game(id, id),
        db_session_id: None,
        started_at: at(1),
        ended_at: at(2),
    };
    let mut live = LiveSession::new();
    live.pending_ends = vec![end("a"), end("b"), end("c")];
    let mut waited = take_pending(&mut live);
    assert!(live.pending_ends.is_empty());
    live.pending_ends.push(end("d"));
    waited.remove(0);
    put_back(&mut live, waited);
    let order: Vec<&str> = live.pending_ends.iter().map(|e| e.identity.id.as_str()).collect();
    assert_eq!(order, vec!["b", "c", "d"]);
}

#[test]
fn a_session_is_adopted_only_while_its_title_is_played() {
    let mut live = LiveSession::new();
    live.apply(&sample_at(at(100), Some(game("steam:1", "A"))));
    adopt_session(&mut live, "steam:2", "x".into(), at(1));
    assert!(live.db_session_id.is_none());
    adopt_session(&mut live, "steam:1", "y".into(), at(50));
    assert_eq!(live.db_session_id.as_deref(), Some("y"));
    assert_eq!(live.started_at, Some(at(50)));
}

#[test]
fn commands_are_planned() {
    let actives = vec![
        open_row(&game("steam:1", "A"), at(10), "one".into()),
        open_row(&game("steam:2", "B"), at(10), "two".into()),
    ];
    let confirm =
        plan_cmd(&PersistCmd::Confirm { fingerprint: "ff".into(), title: "T".into() }, &actives);
    assert!(matches!(&confirm.must[0], Statement::UpsertMapping(m) if m.identity_id == "user:ff" && m.title == "T"));
    assert!(matches!(&confirm.may[0], Statement::RemoveIgnored(id) if id == "user:ff"));
    assert!(confirm.forget.is_none());

    let ignore =
        plan_cmd(&PersistCmd::Ignore { identity_id: "steam:1".into(), title: "A".into() }, &actives);
    assert_eq!(ignore.must.len(), 2);
    assert!(matches!(&ignore.must[0], Statement::UpsertIgnored(i) if i.identity_id == "steam:1"));
    assert!(matches!(
        &ignore.must[1],
        Statement::Session(SessionChange::Discard { id }) if id == "one"
    ));
    assert_eq!(ignore.forget.as_deref(), Some("steam:1"));

    let unignore = plan_cmd(&PersistCmd::Unignore { identity_id: "steam:1".into() }, &actives);
    assert!(matches!(&unignore.must[0], Statement::RemoveIgnored(id) if id == "steam:1"));

    let manual = ManualGame {
        id: "m".into(),
        title: "Hades".into(),
        exe_name: "Hades.exe".into(),
        path_hint: None,
        steam_app_id: None,
    };
    let add =
        plan_cmd(&PersistCmd::AddManual { game: manual, identity_id: "manual:m".into() }, &actives);
    assert!(matches!(&add.must[0], Statement::UpsertManual(g) if g.id == "m"));
    assert!(matches!(&add.may[0], Statement::RemoveIgnored(id) if id == "manual:m"));

    assert!(plan_cmd(&PersistCmd::EnsureOpen, &actives).must.is_empty());
}

#[test]
fn an_open_table_is_answered_for() {
    let path = "/data/qmonitor.db".to_string();
    let (reply, next) = ensure_open(&path, true, &Ok(()));
    assert_eq!(reply.unwrap(), path);
    assert!(next.is_ok());
    let (reply, next) = ensure_open(&path, false, &Ok(()));
    assert_eq!(reply.unwrap(), path);
    assert!(matches!(next, Err(PersistError::PathChanged)));
    let (reply, next) = ensure_open(&path, true, &Err(PersistError::Poison("locked".into())));
    assert_eq!(reply.unwrap_err(), "locked");
    assert!(matches!(next, Err(PersistError::Poison(e)) if e == "locked"));
}

#[test]
fn a_push_is_marked() {
    let id = "one".to_string();
    assert!(matches!(after_push(&id, &Ok(()), Some(2), at(9)), SessionChange::Synced { .. }));
    match after_push(&id, &Err("HTTP 500".into()), Some(1), at(1_000)) {
        SessionChange::Failed { retry_count, next_retry_at, error, .. } => {
            assert_eq!(retry_count, 2);
            assert_eq!(next_retry_at, at(1_600));
            assert_eq!(error, "HTTP 500");
        }
        other => panic!("{other:?}"),
    }
    match after_push(&id, &Err("HTTP 500".into()), None, at(1_000)) {
        SessionChange::Failed { retry_count, .. } => assert_eq!(retry_count, 1),
        other => panic!("{other:?}"),
    }
}

#[test]
fn a_failed_push_does_not_end_the_connection() {
    let poison = || Err(PersistError::Poison("gone".into()));
    assert!(matches!(push_outcome(&Ok(()), Ok(())), (None, Ok(()))));
    assert!(matches!(push_outcome(&Ok(()), poison()), (None, Err(PersistError::Poison(_)))));
    let (error, go_on) = push_outcome(&Err("HTTP 500".into()), poison());
    assert_eq!(error.as_deref(), Some("HTTP 500"));
    assert!(go_on.is_ok());
}

#[test]
fn old_sessions_are_purged_now_and_again() {
    let mut timer = PurgeTimer::new();
    for _ in 1..PURGE_ROUNDS {
        assert!(!timer.tick());
    }
    assert!(timer.tick());
    assert!(!timer.tick());
}

#[test]
fn ends_that_are_not_stored_wait() {
    let end = |id: &str| PendingEnd {
        identity: game(id, "A"),
        db_session_id: None,
        started_at: at(1),
        ended_at: at(2),
    };
    let mut live = LiveSession::new();
    live.pending_ends = vec![end("steam:9")];
    let rest = after_store(&mut live, vec![end("steam:1"), end("steam:2")], Ok(())).unwrap();
    assert_eq!(rest.len(), 1);
    assert_eq!(rest[0].identity.id, "steam:2");
    assert_eq!(live.pending_ends.len(), 1);
    let error = after_store(&mut live, rest, Err(PersistError::Poison("x".into())));
    assert!(matches!(error, Err(PersistError::Poison(e)) if e == "x"));
    assert_eq!(live.pending_ends[0].identity.id, "steam:2");
    assert_eq!(live.pending_ends[1].identity.id, "steam:9");
}

#[test]
fn rows_are_read_only_where_they_are_needed() {
    let own = open_row(&game("steam:1", "A"), at(1), "own".into());
    let mut stored = table(&[own.clone(), open_row(&game("steam:2", "B"), at(2), "bad".into())]);
    stored[1][2] = DbValue::Null;
    let end = PendingEnd {
        identity: game("steam:1", "A"),
        db_session_id: Some("own".into()),
        started_at: at(1),
        ended_at: at(9),
    };
    let changes = store_end(&end, &Some(own), &stored, "new".into(), at(10)).unwrap();
    assert!(matches!(&changes[..], [SessionChange::End { id, .. }] if id == "own"));
    assert_eq!(store_end(&end, &None, &stored, "new".into(), at(10)).unwrap_err(), "title");

    let (changes, keep) =
        reconcile_table(&None, None, None, None, &stored, "new".into(), at(10)).unwrap();
    assert!(changes.is_empty() && keep.is_none());
    assert_eq!(
        reconcile_table(&None, None, None, Some(at(9)), &stored, "new".into(), at(10)).unwrap_err(),
        "title"
    );

    let ignore = PersistCmd::Ignore { identity_id: "steam:1".into(), title: "A".into() };
    assert_eq!(plan_request(&ignore, &stored).must.len(), 1);
    assert_eq!(plan_request(&ignore, &stored[..1].iter().map(copy).collect()).must.len(), 2);
}

fn copy(row: &Vec<DbValue>) -> Vec<DbValue> {
    row_values(&session_from_row(row).unwrap())
}

#[test]
fn a_view_of_the_table() {
    assert!(!DbView::empty().turso_ok);
    let rows = vec![
        open_row(&game("steam:1", "A"), at(50), "one".into()),
        end_row(&open_row(&game("steam:2", "B"), at(10), "two".into()), at(20), at(20)),
    ];
    let view = DbView::of_table(&table(&rows)).unwrap();
    assert!(view.turso_ok);
    assert_eq!(view.pending_count, 1);
    assert_eq!(view.active.unwrap().id, "one");
    assert_eq!(view.history.len(), 2);
    assert_eq!(view.history[0].id, "one");
}

// ---------------------------------------------------------------------------
// The state of the application
// ---------------------------------------------------------------------------

fn empty_state() -> AppState {
    let pipeline = IdentityPipeline::new(
        SteamLibraryIndex::empty(),
        LocalCatalog::empty(),
        DetectableCatalog::empty(),
        KeyedList::new(),
        HostOs::Linux,
    );
    AppState::new(AppConfig::default(), pipeline)
}

#[test]
fn ignore_discards_all_actives_without_push() {
    let now = Timestamp::now();
    let mut state = empty_state();
    let apex = game("steam:1172470", "Apex");
    let mut rows = vec![
        open_row(&apex, now.plus_seconds(-600), "older".into()),
        open_row(&apex, now.plus_seconds(-60), "newer".into()),
    ];
    state.live.identity = Some(apex);

    let cmd = state.ignore_game("steam:1172470".into(), "Apex".into());
    let plan = plan_cmd(&cmd, &active(&rows));
    for statement in plan.must {
        if let Statement::Session(change) = statement {
            apply(&mut rows, change);
        }
    }
    assert!(active(&rows).is_empty());
    assert!(rows.is_empty());
    assert!(due(&rows, now).is_empty());
    assert!(state.live.identity.is_none());
    assert!(state.pipeline.ignored_identities.contains("steam:1172470"));
}

#[test]
fn detect_updates_live_when_persist_is_offline() {
    let mut state = empty_state();
    let t0 = Timestamp::now();
    state.live.apply(&sample_at(t0, Some(game("steam:1", "RL"))));
    let home = state.home_state(&TokenCache::new(), t0);
    assert_eq!(home.active.as_ref().map(|a| a.identity_id.as_str()), Some("steam:1"));
    assert!(!home.sync.turso_ok);
    state.live.apply(&sample_at(t0.plus_seconds(9), None));
    assert_eq!(state.live.pending_ends.len(), 1);
}

#[test]
fn overlay_shows_live_when_db_view_empty() {
    let mut live = LiveSession::new();
    let now = Timestamp::now();
    live.apply(&sample_at(now, Some(game("steam:1", "RL"))));
    let row = overlay_active(&live, None, now).unwrap();
    assert_eq!(row.identity_id, "steam:1");
    assert_eq!(row.push_status, PushStatus::Active);
    assert_eq!(row.id, "live:steam:1");
    let stored = open_row(&game("steam:1", "RL"), at(5), "stored".into());
    assert_eq!(overlay_active(&live, Some(stored.clone()), now).unwrap().id, "stored");
    assert_eq!(overlay_active(&LiveSession::new(), Some(stored), now).unwrap().id, "stored");
    assert!(overlay_active(&LiveSession::new(), None, now).is_none());
}

#[test]
fn a_confirmed_detection_is_known_at_once() {
    let mut state = empty_state();
    state.pipeline.ignored_identities.insert("user:ff".to_string());
    let cmd = state.confirm_detection("ff".into(), "My Game".into());
    assert!(matches!(cmd, PersistCmd::Confirm { fingerprint, title } if fingerprint == "ff" && title == "My Game"));
    assert_eq!(state.pipeline.user_mappings.get("ff").unwrap().identity_id, "user:ff");
    assert!(!state.pipeline.ignored_identities.contains("user:ff"));
}

#[test]
fn ignoring_and_no_longer_ignoring() {
    let mut state = empty_state();
    state.ignore_game("steam:1".into(), "A".into());
    assert!(state.pipeline.ignored_identities.contains("steam:1"));
    assert_eq!(state.ignored_titles.get("steam:1").unwrap().title, "A");
    state.unignore_game("steam:1".into());
    assert!(!state.pipeline.ignored_identities.contains("steam:1"));
    assert!(state.ignored_titles.get("steam:1").is_none());
    assert_eq!(state.pipeline.ignored_identities.len(), 0);
}

#[test]
fn a_manual_game_is_added() {
    let mut state = empty_state();
    let (manual, cmd) = state
        .add_manual_game_as("  Hades ".into(), "/games/Hades/Hades.exe".into(), None, "m1".into())
        .unwrap();
    assert_eq!(manual.title, "Hades");
    assert_eq!(manual.exe_name, "Hades.exe");
    assert_eq!(manual.path_hint.as_deref(), Some("Hades"));
    assert!(matches!(cmd, PersistCmd::AddManual { identity_id, .. } if identity_id == "manual:m1"));
    assert_eq!(state.pipeline.manual_games.len(), 1);
    assert!(state.add_manual_game("  ".into(), "/games/x".into(), None).is_err());
    let (other, _) = state.add_manual_game("X".into(), "x.exe".into(), Some(7)).unwrap();
    assert_eq!(other.id.len(), 36);
}

#[test]
fn games_are_listed_once_by_title() {
    let mut state = empty_state();
    state.pipeline.steam.add_game(SteamGame {
        app_id: 620,
        title: "portal 2".into(),
        install_path: "/games/portal2".into(),
    });
    state.pipeline.steam.add_game(SteamGame {
        app_id: 570,
        title: "Dota 2".into(),
        install_path: "/games/dota".into(),
    });
    state.set_prefs(
        vec![UserMapping {
            fingerprint: "ff".into(),
            title: "Éclair".into(),
            identity_id: "user:ff".into(),
        }],
        vec![
            IgnoredIdentity { identity_id: "steam:570".into(), title: "Dota 2".into() },
            IgnoredIdentity { identity_id: "steam:9".into(), title: "Nine".into() },
        ],
        vec![],
    );
    let games = list_trackable_games(&state);
    let ids: Vec<&str> = games.iter().map(|g| g.id.as_str()).collect();
    assert_eq!(ids, vec!["steam:570", "steam:9", "steam:620", "user:ff"]);
    assert!(!games[0].tracking_enabled);
    assert!(games[2].tracking_enabled);
}

#[test]
fn titles_are_ordered_without_regard_to_case() {
    let mut state = empty_state();
    state.pipeline.steam.add_game(SteamGame {
        app_id: 1,
        title: "ÉTÉ".into(),
        install_path: "/a".into(),
    });
    state.pipeline.steam.add_game(SteamGame {
        app_id: 2,
        title: "éa".into(),
        install_path: "/b".into(),
    });
    let titles: Vec<String> = list_trackable_games(&state).into_iter().map(|g| g.title).collect();
    assert_eq!(titles, vec!["éa".to_string(), "ÉTÉ".to_string()]);
}

#[test]
fn the_home_view_sums_up() {
    let mut state = empty_state();
    let now = at(1_000);
    state.config.api_root = Some("https://q.example/api".into());
    state.health.last_detect_at = Some(at(999));
    state.last_error = Some("HTTP 500".into());
    let home = state.home_state(&TokenCache::new(), now);
    assert!(home.active.is_none());
    assert!(home.sync.loop_alive);
    assert_eq!(home.sync.last_error.as_deref(), Some("HTTP 500"));
    assert_eq!(home.sync.last_tick_at.as_deref(), Some("1970-01-01T00:16:39+00:00"));
    assert!(home.history.is_empty());
}

// ---------------------------------------------------------------------------
// The workers
// ---------------------------------------------------------------------------

#[test]
fn a_sample_names_the_primary_title() {
    let mut state = empty_state();
    state.pipeline.steam.add_game(SteamGame {
        app_id: 570,
        title: "Dota 2".into(),
        install_path: "/games/dota".into(),
    });
    let reaper = ProcessSnapshot {
        pid: 9,
        name: "reaper".into(),
        exe_path: None,
        cmdline: Some("reaper SteamLaunch AppId=570 --".into()),
    };
    let (sample, pending) = detect_sample(&state.pipeline, &[reaper], None, at(100));
    assert!(pending.is_empty());
    assert_eq!(sample.observed_at, at(100));
    assert_eq!(sample.primary.as_ref().unwrap().id, "steam:570");
    state.take_sample(&sample, pending);
    assert_eq!(state.live.identity_id(), Some("steam:570"));
    assert_eq!(state.health.last_detect_at, Some(at(100)));
}

#[test]
fn a_failed_look_keeps_what_was_seen() {
    let mut seen = LastSeen::new();
    let mut health = empty_state().health;
    let process =
        ProcessSnapshot { pid: 1, name: "a".into(), exe_path: None, cmdline: None };
    seen.note(Snapshot::Taken(vec![process], Some(1)), &mut health);
    seen.note(Snapshot::Failed, &mut health);
    assert_eq!(seen.processes.len(), 1);
    assert_eq!(seen.foreground, Some(1));
    assert_eq!(health.detect_timeouts, 0);
    seen.note(Snapshot::TimedOut, &mut health);
    assert_eq!(health.detect_timeouts, 1);
    assert_eq!(seen.processes.len(), 1);
}

#[test]
fn pushing_needs_an_address_and_a_token() {
    let mut cfg = AppConfig::default();
    let mut cache = TokenCache::new();
    assert!(!can_push(&cfg, &cache));
    assert!(push_target(&cfg, &cache).is_err());
    cfg.api_root = Some("https://q.example/api".into());
    assert!(!can_push(&cfg, &cache));
    cache.cache_put(Some("tok"), None);
    assert!(can_push(&cfg, &cache));
    let (url, token) = push_target(&cfg, &cache).unwrap();
    assert_eq!(url, "https://q.example/api/webhooks/qmonitor");
    assert_eq!(token, "tok");
}

#[test]
fn workers_note_their_work() {
    let mut state = empty_state();
    state.note_push(&Ok(()), at(5));
    assert_eq!(state.health.last_push_at, Some(at(5)));
    state.note_push(&Err("HTTP 500".into()), at(6));
    assert_eq!(state.last_error.as_deref(), Some("HTTP 500"));
    state.health.begin_generation(1);
    assert_eq!(state.health.db_reconnects, 0);
    state.health.note_opened(1, at(7));
    assert!(state.health.db_ok);
    assert_eq!(state.health.last_persist_at, Some(at(7)));
    state.note_poisoned("locked".into());
    assert!(!state.health.db_ok);
    assert_eq!(state.health.last_error.as_deref(), Some("locked"));
    state.health.begin_generation(2);
    assert_eq!(state.health.db_reconnects, 1);
    assert!(!prune_due(1_799));
    assert!(prune_due(1_800));
}
