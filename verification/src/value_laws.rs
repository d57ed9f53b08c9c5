//! What the values of the types tell, field by field, and what holds of lists by key.

use vstd::prelude::*;

use crate::db;
use crate::db::{ChangeView, ColumnView, DbValue, SessionChange, SessionRow};
use crate::health;
use crate::health::RuntimeHealth;
use crate::host::HostOs;
use crate::identity;
use crate::identity::detectable;
use crate::identity::resolver;
use crate::identity::resolver::{Findings, IdentityPipeline};
use crate::identity::steam_library;
use crate::identity::steam_library::{AppManifest, PlaceBase, SteamPlace};
use crate::identity::{
    GameIdentity, ManualGame, PendingDetection, ProcessSnapshot, TrackableGame,
};
use crate::keyed;
use crate::keyed::Keyed;
use crate::live_session;
use crate::live_session::{LiveSession, PendingEnd};
use crate::number;
use crate::oauth_loopback;
use crate::persist;
use crate::persist::Statement;
use crate::push;
use crate::push::SessionPayload;
use crate::runtime;
use crate::search;
use crate::session;
use crate::session::AppState;
use crate::text;
use crate::time;
use crate::update_check;
use crate::update_check::{GhRelease, PendingUpdate};

verus! {

// ---------------------------------------------------------------------------
// Values
// ---------------------------------------------------------------------------

/// The value of an optional text is that of the text.
pub open spec fn tells_text(v: Option<Seq<char>>, s: Option<String>) -> bool {
    match s {
        Some(t) => v == Some(t@),
        None => v is None,
    }
}

/// The value of an optional time is that of the time.
pub open spec fn tells_time(v: Option<int>, t: Option<time::Timestamp>) -> bool {
    match t {
        Some(x) => v == Some(x@),
        None => v is None,
    }
}

/// The value of a game tells each of its fields under its own name.
pub proof fn law_game_values(i: GameIdentity, g: ManualGame, t: TrackableGame)
    ensures
        i@.id == i.id@,
        i@.title == i.title@,
        i@.steam_app_id == i.steam_app_id,
        tells_text(i@.exe, i.exe),
        i@.confidence == i.confidence,
        i@.source == i.source@,
        tells_text(i@.fingerprint, i.fingerprint),
        g@.id == g.id@,
        g@.title == g.title@,
        g@.exe_name == g.exe_name@,
        tells_text(g@.path_hint, g.path_hint),
        g@.steam_app_id == g.steam_app_id,
        t@.id == t.id@,
        t@.title == t.title@,
        t@.steam_app_id == t.steam_app_id,
        t@.source == t.source@,
        t@.tracking_enabled == t.tracking_enabled,
{
}

/// The values of a process, of a detection that waits, and of an app manifest tell each
/// of their fields under its own name.
pub proof fn law_process_values(p: ProcessSnapshot, d: PendingDetection, m: AppManifest)
    ensures
        p@.pid == p.pid,
        p@.name == p.name@,
        tells_text(p@.exe_path, p.exe_path),
        tells_text(p@.cmdline, p.cmdline),
        d@.process_name == d.process_name@,
        tells_text(d@.exe_path, d.exe_path),
        d@.fingerprint == d.fingerprint@,
        d@.suggested_title == d.suggested_title@,
        tells_text(d@.identity_id, d.identity_id),
        m@.app_id == m.app_id,
        m@.title == m.title@,
        m@.install_dir == m.install_dir@,
{
}

/// The value of a stored session tells each of its fields under its own name.
pub proof fn law_row_values(r: SessionRow)
    ensures
        r@.id == r.id@,
        r@.identity_id == r.identity_id@,
        r@.title == r.title@,
        r@.steam_app_id == r.steam_app_id,
        tells_text(r@.exe, r.exe),
        r@.source == r.source@,
        r@.started_at == r.started_at@,
        tells_time(r@.ended_at, r.ended_at),
        r@.duration_secs == r.duration_secs,
        r@.push_status == r.push_status,
        tells_time(r@.acked_at, r.acked_at),
        r@.retry_count == r.retry_count,
        tells_time(r@.next_retry_at, r.next_retry_at),
        tells_text(r@.last_error, r.last_error),
{
}

/// The values of the session in memory and of an end that waits tell each of their fields
/// under its own name.
pub proof fn law_live_values(l: LiveSession, e: PendingEnd, k: int)
    ensures
        l.identity is None <==> l@.identity is None,
        l.identity is Some ==> l@.identity == Some(l.identity->0@),
        tells_time(l@.started_at, l.started_at),
        tells_time(l@.last_seen_at, l.last_seen_at),
        tells_text(l@.db_session_id, l.db_session_id),
        tells_time(l@.last_tick_at, l.last_tick_at),
        l@.pending_ends.len() == l.pending_ends@.len(),
        0 <= k < l.pending_ends@.len() ==> l@.pending_ends[k] == l.pending_ends@[k]@,
        e@.identity == e.identity@,
        tells_text(e@.db_session_id, e.db_session_id),
        e@.started_at == e.started_at@,
        e@.ended_at == e.ended_at@,
{
}

/// The values of a payload, a release and a column tell each of their fields under its
/// own name.
pub proof fn law_message_values(p: SessionPayload, u: PendingUpdate, v: DbValue)
    ensures
        p@.schema_version == p.schema_version,
        p@.session_id == p.session_id@,
        p@.source == p.source@,
        p@.steam_app_id == p.steam_app_id,
        p@.title == p.title@,
        tells_text(p@.exe, p.exe),
        p@.started_at == p.started_at@,
        p@.ended_at == p.ended_at@,
        p@.duration_secs == p.duration_secs,
        p@.os == p.host.os@,
        p@.hostname == p.host.hostname@,
        u@.tag == u.tag@,
        u@.version == u.version@,
        u@.html_url == u.html_url@,
        v is Null <==> v@ is Null,
        v is Integer ==> v@ == ColumnView::Integer(v->Integer_0),
        v is Text ==> v@ == ColumnView::Text(v->Text_0@),
        v is Other ==> v@ == ColumnView::Other(v->Other_0@),
{
}

/// The value of a change tells each of its fields under its own name.
pub proof fn law_change_values(c: SessionChange, s: Statement)
    ensures
        match c {
            SessionChange::Insert(row) => c@ == ChangeView::Insert(row@),
            SessionChange::End { id, ended_at, duration_secs, next_retry_at } => {
                &&& c@ is End
                &&& c@->End_id == id@
                &&& c@->End_ended_at == ended_at@
                &&& c@->End_duration_secs == duration_secs
                &&& c@->End_next_retry_at == next_retry_at@
            },
            SessionChange::Discard { id } => c@ is Discard && c@->Discard_id == id@,
            SessionChange::Synced { id, acked_at } => {
                &&& c@ is Synced
                &&& c@->Synced_id == id@
                &&& c@->acked_at == acked_at@
            },
            SessionChange::Failed { id, error, retry_count, next_retry_at } => {
                &&& c@ is Failed
                &&& c@->Failed_id == id@
                &&& c@->error == error@
                &&& c@->retry_count == retry_count
                &&& c@->Failed_next_retry_at == next_retry_at@
            },
            SessionChange::Purge { acked_before } => c@ is Purge && c@->acked_before
                == acked_before@,
        },
        match s {
            Statement::UpsertMapping(m) => {
                &&& s@ is UpsertMapping
                &&& s@->fingerprint == m.fingerprint@
                &&& s@->UpsertMapping_title == m.title@
                &&& s@->UpsertMapping_identity_id == m.identity_id@
            },
            Statement::UpsertIgnored(i) => {
                &&& s@ is UpsertIgnored
                &&& s@->UpsertIgnored_identity_id == i.identity_id@
                &&& s@->UpsertIgnored_title == i.title@
            },
            Statement::RemoveIgnored(id) => s@ is RemoveIgnored && s@->RemoveIgnored_identity_id
                == id@,
            Statement::UpsertManual(g) => s@ is UpsertManual && s@->UpsertManual_0 == g@,
            Statement::Session(c) => s@ is Session && s@->Session_0 == c@,
        },
{
}

/// The rules of a pipeline are what it holds; the state of the health tells when the last
/// detection was.
pub proof fn law_state_values(p: IdentityPipeline, h: RuntimeHealth, k: int)
    ensures
        p.rules().games == p.steam.games@,
        p.rules().catalog == p.catalog.entries@,
        p.rules().detectable == p.detectable@,
        p.rules().mappings == p.user_mappings@,
        p.rules().ignored == p.ignored_identities@,
        p.rules().host == p.host,
        p.rules().manual.len() == p.manual_games@.len(),
        0 <= k < p.manual_games@.len() ==> p.rules().manual[k] == p.manual_games@[k]@,
        tells_time(h.detected(), h.last_detect_at),
{
}

/// The values of a list are the values of its items, in order.
pub proof fn law_list_values(
    ids: Seq<GameIdentity>,
    procs: Seq<ProcessSnapshot>,
    waiting: Seq<PendingDetection>,
    rows: Seq<SessionRow>,
    ends: Seq<PendingEnd>,
    k: int,
)
    ensures
        identity::id_views(ids).len() == ids.len(),
        0 <= k < ids.len() ==> identity::id_views(ids)[k] == ids[k]@,
        identity::proc_views(procs).len() == procs.len(),
        0 <= k < procs.len() ==> identity::proc_views(procs)[k] == procs[k]@,
        identity::pending_views(waiting).len() == waiting.len(),
        0 <= k < waiting.len() ==> identity::pending_views(waiting)[k] == waiting[k]@,
        db::row_views(rows).len() == rows.len(),
        0 <= k < rows.len() ==> db::row_views(rows)[k] == rows[k]@,
        live_session::end_views(ends).len() == ends.len(),
        0 <= k < ends.len() ==> live_session::end_views(ends)[k] == ends[k]@,
{
}

// ---------------------------------------------------------------------------
// What the user's wishes change
// ---------------------------------------------------------------------------

/// What the user says changes the rules, the game in memory and the ignored titles, and
/// nothing else of the state.
pub proof fn law_only_wishes_change(a: AppState, b: AppState)
    requires
        a.same_but_prefs(&b),
    ensures
        a.config == b.config,
        a.pipeline.crowd == b.pipeline.crowd,
        a.db_view == b.db_view,
        a.health == b.health,
        a.pending_detections == b.pending_detections,
        a.last_error == b.last_error,
{
}

/// The list with what the user vouches for has an identity with the id that is tracked:
/// the one that was there if it was sure, else the one that the user vouches for, in its
/// place or at the end. All others stay where they are.
pub proof fn law_vouched_for(
    list: Seq<identity::IdentityView>,
    id: identity::IdentityView,
    k: int,
)
    requires
        0 <= k <= list.len(),
        forall|j: int| 0 <= j < k ==> (#[trigger] list[j]).id != id.id,
        k < list.len() ==> list[k].id == id.id,
    ensures
        ({
            let r = identity::with_truth(list, id);
            &&& k == list.len() ==> r == list.push(id)
            &&& k < list.len() && (list[k].confidence == identity::Confidence::High
                || list[k].confidence == identity::Confidence::Medium) ==> r == list
            &&& k < list.len() && (list[k].confidence == identity::Confidence::Low
                || list[k].confidence == identity::Confidence::Absent) ==> r == list.update(k, id)
        }),
{
    let f = |i: identity::IdentityView| i.id == id.id;
    assert(forall|j: int| 0 <= j < k ==> !f(#[trigger] list[j]));
    if k < list.len() {
        search::lemma_first_is(list, f, k);
    } else {
        search::lemma_first_where(list, f);
    }
}

/// Of what was found, an identity is left where it is sure and not ignored, and a
/// detection that waits where its identity is not ignored.
pub proof fn law_what_is_left(
    ignored: Seq<String>,
    f: Findings,
    i: identity::IdentityView,
    p: identity::PendingView,
)
    ensures
        resolver::retained(ignored, f).identities.contains(i) <==> f.identities.contains(i) && (
        i.confidence == identity::Confidence::High || i.confidence == identity::Confidence::Medium)
            && !keyed::has_key(ignored, i.id),
        resolver::retained(ignored, f).pending.contains(p) <==> f.pending.contains(p) && (
        p.identity_id is None || !keyed::has_key(ignored, p.identity_id->0)),
{
    search::lemma_filter_has(f.identities, |x: identity::IdentityView| resolver::kept(ignored, x), i);
    search::lemma_filter_has(f.pending, |x: identity::PendingView| resolver::shown(ignored, x), p);
}

/// What a sample tells: the game that counts is one of those that are found for the
/// processes, if there is any, and what waits is what is found to wait.
pub proof fn law_sample(
    pipeline: IdentityPipeline,
    procs: Seq<identity::ProcessView>,
    foreground: Option<u32>,
    fps: Seq<Seq<char>>,
    answers: Seq<Option<identity::IdentityView>>,
    game: Option<identity::IdentityView>,
    pending: Seq<identity::PendingView>,
)
    requires
        runtime::sampled(pipeline, procs, foreground, fps, answers, game, pending),
    ensures
        ({
            let found = resolver::resolved(pipeline.rules(), procs, fps, answers);
            &&& pending == found.pending
            &&& game is None <==> found.identities.len() == 0
            &&& game is Some ==> found.identities.contains(game->0)
            &&& fps.len() == procs.len()
            &&& answers.len() == procs.len()
        }),
{
    let found = resolver::resolved(pipeline.rules(), procs, fps, answers);
    crate::detect::lemma_primary(found.identities, foreground, procs);
}

// ---------------------------------------------------------------------------
// Lists by key
// ---------------------------------------------------------------------------

/// Of the items of a list that is gathered, the last with a key is found by it, and no
/// key is there twice.
pub proof fn law_gathered<T: Keyed>(s: Seq<T>, key: Seq<char>, k: int)
    requires
        0 <= k <= s.len(),
        k < s.len() ==> s[k].key() == key,
        k < s.len() ==> forall|j: int| k < j < s.len() ==> (#[trigger] s[j]).key() != key,
        k == s.len() ==> forall|j: int| 0 <= j < s.len() ==> (#[trigger] s[j]).key() != key,
    ensures
        keyed::keys_distinct(keyed::gathered(s)),
        k < s.len() ==> keyed::lookup(keyed::gathered(s), key) == Some(s[k]),
        k == s.len() ==> keyed::lookup(keyed::gathered(s), key) is None,
    decreases s.len(),
{
    if s.len() > 0 {
        let front = s.drop_last();
        let last = s.last();
        assert(s[s.len() - 1] == last);
        if k == s.len() - 1 {
            lemma_gathered_distinct(front);
            keyed::lemma_insert_lookup(keyed::gathered(front), last, key);
        } else if k == s.len() {
            law_gathered(front, key, front.len() as int);
            keyed::lemma_insert_lookup(keyed::gathered(front), last, key);
        } else {
            law_gathered(front, key, k);
            keyed::lemma_insert_lookup(keyed::gathered(front), last, key);
        }
    }
}

proof fn lemma_gathered_distinct<T: Keyed>(s: Seq<T>)
    ensures
        keyed::keys_distinct(keyed::gathered(s)),
    decreases s.len(),
{
    if s.len() > 0 {
        lemma_gathered_distinct(s.drop_last());
        keyed::lemma_insert_lookup(keyed::gathered(s.drop_last()), s.last(), s.last().key());
    }
}

// ---------------------------------------------------------------------------
// Steam
// ---------------------------------------------------------------------------

/// Steam is looked for at its usual places: on Windows in the folders for programs, by
/// its own program or by the folder, and on Linux below the home of the user. On other
/// systems it is not looked for.
pub proof fn law_steam_places(host: HostOs)
    ensures
        ({
            let places = steam_library::steam_places(host);
            &&& host == HostOs::Windows ==> {
                &&& places.len() == 3
                &&& places[0] == (
                    PlaceBase::Disk,
                    "C:\\Program Files (x86)\\Steam"@,
                    Some("steam.exe"@),
                )
                &&& places[1] == (
                    PlaceBase::Disk,
                    "C:\\Program Files\\Steam"@,
                    Some("steam.exe"@),
                )
                &&& places[2] == (PlaceBase::ProgramFiles, "Steam"@, None::<Seq<char>>)
            }
            &&& host == HostOs::Linux ==> {
                &&& places.len() == 3
                &&& forall|i: int|
                    0 <= i < 3 ==> (#[trigger] places[i]).0 == PlaceBase::Home && places[i].2 is None
                &&& places[0].1 == ".steam/steam"@
                &&& places[1].1 == ".local/share/Steam"@
                &&& places[2].1 == ".var/app/com.valvesoftware.Steam/data/Steam"@
            }
            &&& host != HostOs::Windows && host != HostOs::Linux ==> places.len() == 0
        }),
{
}

/// A command line has an app id where the marker stands in it with the digits of the id,
/// and a space, a tab, a zero or the end of the line behind them.
pub proof fn law_has_app_id(before: Seq<char>, app_id: u32, rest: Seq<char>)
    requires
        rest.len() == 0 || rest[0] == ' ' || rest[0] == '\t' || rest[0] == '\0',
    ensures
        steam_library::has_app_id(
            before + ("SteamLaunch AppId="@ + number::decimal(app_id as nat)) + rest,
            app_id,
        ),
{
    let needle = "SteamLaunch AppId="@ + number::decimal(app_id as nat);
    let cmd = before + needle + rest;
    let i = before.len() as int;
    assert(cmd.subrange(i, i + needle.len()) == needle);
    assert(cmd.skip(i + needle.len()) == rest);
    assert(steam_library::ends_at(cmd, steam_library::marked_id(app_id), i));
}

/// A command line has an app id only where that is so.
pub proof fn law_has_only_marked_ids(cmd: Seq<char>, app_id: u32)
    requires
        steam_library::has_app_id(cmd, app_id),
    ensures
        exists|i: int|
            {
                let needle = "SteamLaunch AppId="@ + number::decimal(app_id as nat);
                let end = i + needle.len();
                &&& #[trigger] text::occurs_at(cmd, steam_library::marked_id(app_id), i)
                &&& steam_library::marked_id(app_id) == needle
                &&& end == cmd.len() || cmd[end] == ' ' || cmd[end] == '\t' || cmd[end] == '\0'
            },
{
    let needle = steam_library::marked_id(app_id);
    let i = choose|i: int| steam_library::ends_at(cmd, needle, i);
    let after = cmd.skip(i + needle.len());
    if after.len() > 0 {
        assert(after[0] == cmd[i + needle.len()]);
    }
    assert(text::occurs_at(cmd, needle, i));
}

// ---------------------------------------------------------------------------
// Messages
// ---------------------------------------------------------------------------

/// What is told of a push that failed is the status; the page after a login, and that
/// which finishes one, are pages with their own titles and contents.
pub proof fn law_messages(shown: Seq<char>)
    ensures
        push::webhook_error(shown) == "webhook HTTP "@ + shown,
        oauth_loopback::success_page() == oauth_loopback::page(
            "qMonitor"@,
            oauth_loopback::MARK_SVG@ + oauth_loopback::SUCCESS_BODY@,
        ),
        oauth_loopback::callback_page() == oauth_loopback::page(
            "qMonitor login"@,
            text::replace(
                oauth_loopback::MARK_SVG@,
                "class=\"mark\""@,
                "class=\"mark pulse\""@,
            ) + oauth_loopback::CALLBACK_BODY@,
        ),
{
}

/// A release is offered under its own tag and address, with the version of its tag; one
/// that is marked as a preview, or tagged as one, is not stable, and a preview is both.
pub proof fn law_release(r: GhRelease)
    ensures
        update_check::offered(r).tag == r.tag_name@,
        update_check::offered(r).html_url == r.html_url@,
        update_check::offered(r).version == update_check::tag_version(r.tag_name@),
        update_check::is_stable(r) <==> !r.prerelease && !update_check::canary_tag(r.tag_name@),
        update_check::is_preview(r) <==> r.prerelease && update_check::canary_tag(r.tag_name@),
{
}

/// Of a list of releases the first preview is offered, and none where there is none.
pub proof fn law_first_preview(releases: Seq<GhRelease>, k: int)
    requires
        0 <= k <= releases.len(),
        forall|j: int|
            0 <= j < k ==> !((#[trigger] releases[j]).prerelease && update_check::canary_tag(
                releases[j].tag_name@,
            )),
        k < releases.len() ==> releases[k].prerelease && update_check::canary_tag(
            releases[k].tag_name@,
        ),
    ensures
        k == releases.len() ==> update_check::first_preview(releases) is None,
        k < releases.len() ==> {
            let u = update_check::first_preview(releases);
            &&& u is Some
            &&& u->0.tag == releases[k].tag_name@
            &&& u->0.html_url == releases[k].html_url@
        },
{
    let f = |r: GhRelease| update_check::is_preview(r);
    assert(forall|j: int| 0 <= j < k ==> !f(#[trigger] releases[j]));
    if k < releases.len() {
        search::lemma_first_is(releases, f, k);
    } else {
        search::lemma_first_where(releases, f);
    }
}

/// The crowd has no say on a process that is denied, that the user has confirmed, or that
/// a game of the user fits; and on every other it has.
pub proof fn law_user_decides(rules: resolver::Rules, p: identity::ProcessView, fp: Seq<char>)
    ensures
        resolver::user_decides(rules, p, fp) <==> {
            ||| identity::deny::denied(p.name)
            ||| keyed::lookup(rules.mappings, fp) is Some
            ||| resolver::manual_match(rules.manual, p) is Some
        },
{
}

/// The value of what may be missing is missing just where it is.
pub proof fn law_optional_values(
    s: Option<String>,
    t: Option<time::Timestamp>,
    r: Option<SessionRow>,
    i: Option<GameIdentity>,
    u: Option<PendingUpdate>,
)
    ensures
        tells_text(text::opt_view(s), s),
        s is None ==> text::opt_text(s).len() == 0,
        s is Some ==> text::opt_text(s) == s->0@,
        tells_time(time::opt_time(t), t),
        r is None <==> db::opt_row(r) is None,
        r is Some ==> db::opt_row(r) == Some(r->0@),
        session::opt_row(r) == db::opt_row(r),
        i is None <==> live_session::opt_identity(i) is None,
        i is Some ==> live_session::opt_identity(i) == Some(i->0@),
        resolver::answer_view(i) == live_session::opt_identity(i),
        u is None <==> update_check::opt_update(u) is None,
        u is Some ==> update_check::opt_update(u) == Some(u->0@),
{
}

/// What was read of rows is each of the sessions that they tell, in order, or the error.
pub proof fn law_what_is_read(
    rows: Vec<SessionRow>,
    error: String,
    t: Seq<Seq<ColumnView>>,
    k: int,
)
    ensures
        db::is_read(Ok(rows), t) ==> rows@.len() == t.len(),
        db::is_read(Ok(rows), t) && 0 <= k < t.len() ==> db::session_of(t[k]) == Ok::<
            db::RowView,
            Seq<char>,
        >(rows@[k]@),
        db::is_read(Err(error), t) ==> exists|i: int|
            0 <= i < t.len() && db::session_of(#[trigger] t[i]) is Err,
{
    db::law_read_all(t);
    if db::is_read(Ok(rows), t) {
        assert(db::read_all(t)->Ok_0 == db::row_views(rows@));
    }
}

/// Versions are ordered by their first number, then by the second and then by the third:
/// of two that differ one is later, and never both.
pub proof fn law_later(x: (u64, u64, u64), y: (u64, u64, u64))
    ensures
        x.0 > y.0 ==> update_check::later(x, y),
        x.0 == y.0 && x.1 > y.1 ==> update_check::later(x, y),
        x.0 == y.0 && x.1 == y.1 && x.2 > y.2 ==> update_check::later(x, y),
        update_check::later(x, y) ==> !update_check::later(y, x),
        x != y ==> update_check::later(x, y) || update_check::later(y, x),
{
}

/// The three numbers of a version are parted by dots, and what stands behind a hyphen is
/// a preview of it.
pub proof fn law_version_text(n: (u64, u64, u64), rest: Seq<char>)
    ensures
        update_check::plain_version(n) == number::decimal(n.0 as nat) + seq!['.'] + number::decimal(
            n.1 as nat,
        ) + seq!['.'] + number::decimal(n.2 as nat),
        update_check::preview_of(update_check::plain_version(n) + seq!['-'] + rest, n),
        !update_check::preview_of(update_check::plain_version(n), n),
{
    reveal_strlit(".");
    reveal_strlit("-");
    assert("."@ == seq!['.']);
    assert("-"@ == seq!['-']);
    let p = update_check::plain_version(n) + "-"@;
    let s = update_check::plain_version(n) + seq!['-'] + rest;
    assert(s.subrange(0, p.len() as int) == p);
}

/// A place where Steam may stand is told by what it is below, its path and its mark.
pub proof fn law_place_values(p: SteamPlace)
    ensures
        steam_library::place_view(p).0 == p.base,
        steam_library::place_view(p).1 == p.path@,
        p.mark is None ==> steam_library::place_view(p).2 is None,
        p.mark is Some ==> steam_library::place_view(p).2 == Some(p.mark->0@),
{
}

/// A hundred sessions are shown, sessions are purged every thirty rounds, log files are
/// kept for three days and to five megabytes and looked through every half hour, and a
/// downloaded catalog is used for a day. An operation on the database may take two
/// seconds, and opening it five.
pub proof fn law_limits()
    ensures
        persist::HISTORY_LIMIT == 100,
        persist::PURGE_ROUNDS == 30,
        persist::DB_OP_TIMEOUT == 2,
        persist::DB_OPEN_TIMEOUT == 5,
        persist::RECONNECT_BACKOFF == 5,
        health::LOG_KEEP_DAYS == 3,
        health::LOG_MAX_BYTES == 5 * 1024 * 1024,
        health::LOG_PRUNE_EVERY == 30 * 60,
        detectable::DETECTABLE_MAX_AGE == 24 * 60 * 60,
        runtime::DETECT_BLOCKING_TIMEOUT == 3,
        runtime::PUSH_POLL == 2,
        runtime::HEALTH_PULSE == 3,
        push::CONNECT_TIMEOUT == 8,
        push::REQUEST_TIMEOUT == 15,
        push::POOL_IDLE_TIMEOUT == 60,
{
}

} // verus!
