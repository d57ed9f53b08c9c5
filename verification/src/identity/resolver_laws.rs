//! What the pipeline makes of the running processes: which of them are tracked,
//! which wait for the user, and where each finding comes from.

use vstd::prelude::*;

use super::resolver;
use super::resolver::{Findings, Rules, UserMapping};
use super::steam_library;
use super::steam_library::SteamGame;
use super::Confidence;
use crate::detect::platform;
use crate::detect::steam_reaper;
use crate::host::HostOs;
use crate::identity;
use crate::identity::catalog;
use crate::identity::deny;
use crate::identity::detectable;
use crate::keyed;
use crate::search;
use crate::text;

verus! {

/// High or medium.
pub open spec fn is_sure(c: Confidence) -> bool {
    c == Confidence::High || c == Confidence::Medium
}

/// The catalogs have a say on the process: it is not denied, the user has neither
/// mapped nor entered it, the crowd has given no answer, and it is no helper or
/// wrapper.
pub open spec fn left_to_catalogs(
    rules: Rules,
    p: identity::ProcessView,
    fp: Seq<char>,
    answer: Option<identity::IdentityView>,
) -> bool {
    &&& !deny::denied(p.name)
    &&& keyed::lookup(rules.mappings, fp) is None
    &&& resolver::manual_match(rules.manual, p) is None
    &&& answer is None
    &&& !platform::windows::sidecar(p)
    &&& !platform::linux::wraps(p.name)
}

/// The detection tells of this process and this game.
pub open spec fn tells_of(
    d: identity::PendingView,
    p: identity::ProcessView,
    fp: Seq<char>,
    title: Seq<char>,
    id: Seq<char>,
) -> bool {
    &&& d.process_name == p.name
    &&& d.exe_path == p.exe_path
    &&& d.fingerprint == fp
    &&& d.suggested_title == title
    &&& d.identity_id == Some(id)
}

/// Some detection tells of this process and this game.
pub open spec fn waits_for(
    list: Seq<identity::PendingView>,
    p: identity::ProcessView,
    fp: Seq<char>,
    title: Seq<char>,
    id: Seq<char>,
) -> bool {
    exists|k: int| 0 <= k < list.len() && tells_of(#[trigger] list[k], p, fp, title, id)
}

// ---------------------------------------------------------------------------
// Steam
// ---------------------------------------------------------------------------

/// All ids begin as those of Steam games do.
spec fn steam_named(list: Seq<identity::IdentityView>) -> bool {
    forall|k: int|
        0 <= k < list.len() ==> (#[trigger] list[k]).id.len() > 0 && list[k].id[0] == 's'
}

proof fn lemma_steam_letter(app_id: u32)
    ensures
        steam_library::steam_id(app_id).len() > 0,
        steam_library::steam_id(app_id)[0] == 's',
{
    reveal_strlit("steam:");
}

proof fn lemma_unique_named(list: Seq<identity::IdentityView>, id: identity::IdentityView)
    requires
        steam_named(list),
        id.id.len() > 0,
        id.id[0] == 's',
    ensures
        steam_named(identity::with_unique(list, id)),
{
}

proof fn lemma_launched_named(
    list: Seq<identity::IdentityView>,
    ids: Seq<u32>,
    name: Seq<char>,
    cmdline: Seq<char>,
    games: Map<u32, SteamGame>,
)
    requires
        steam_named(list),
    ensures
        steam_named(steam_reaper::with_launched(list, ids, name, cmdline, games)),
    decreases ids.len(),
{
    if ids.len() > 0 {
        lemma_launched_named(list, ids.drop_last(), name, cmdline, games);
        lemma_steam_letter(ids.last());
        lemma_unique_named(
            steam_reaper::with_launched(list, ids.drop_last(), name, cmdline, games),
            steam_reaper::launched(games, ids.last(), name),
        );
    }
}

proof fn lemma_launched_games_named(
    procs: Seq<identity::ProcessView>,
    games: Map<u32, SteamGame>,
)
    ensures
        steam_named(steam_reaper::launched_games(procs, games)),
    decreases procs.len(),
{
    if procs.len() > 0 {
        lemma_launched_games_named(procs.drop_last(), games);
        let p = procs.last();
        if p.cmdline is Some {
            lemma_launched_named(
                steam_reaper::launched_games(procs.drop_last(), games),
                steam_library::reaper_ids(p.cmdline->0),
                p.name,
                p.cmdline->0,
                games,
            );
        }
    }
}

proof fn lemma_paths_named(
    list: Seq<identity::IdentityView>,
    procs: Seq<identity::ProcessView>,
    games: Map<u32, SteamGame>,
    host: HostOs,
)
    requires
        steam_named(list),
    ensures
        steam_named(platform::with_paths(list, procs, games, host)),
    decreases procs.len(),
{
    if procs.len() > 0 {
        lemma_paths_named(list, procs.drop_last(), games, host);
        let p = procs.last();
        if let Some(id) = steam_library::path_match(games, p) {
            let k = choose|k: u32| steam_library::only_install(games, k, p.exe_path->0);
            lemma_steam_letter(games[k].app_id);
            lemma_unique_named(platform::with_paths(list, procs.drop_last(), games, host), id);
        }
    }
}

proof fn lemma_steam_named(
    procs: Seq<identity::ProcessView>,
    games: Map<u32, SteamGame>,
    host: HostOs,
)
    ensures
        steam_named(platform::steam_games(procs, games, host)),
{
    lemma_launched_games_named(procs, games);
    lemma_paths_named(steam_reaper::launched_games(procs, games), procs, games, host);
}

// ---------------------------------------------------------------------------
// What is tracked
// ---------------------------------------------------------------------------

/// No identity with this id is unsure.
spec fn sure_under(list: Seq<identity::IdentityView>, x: Seq<char>) -> bool {
    forall|k: int| 0 <= k < list.len() && (#[trigger] list[k]).id == x ==> is_sure(list[k].confidence)
}

/// The crowd has given no unsure answer with this id.
pub open spec fn no_unsure_answer(
    answers: Seq<Option<identity::IdentityView>>,
    x: Seq<char>,
) -> bool {
    forall|k: int|
        0 <= k < answers.len() && (#[trigger] answers[k]) is Some && answers[k]->0.id == x
            ==> is_sure(answers[k]->0.confidence)
}

proof fn lemma_step_sure(
    rules: Rules,
    so_far: Findings,
    p: identity::ProcessView,
    fp: Seq<char>,
    crowd: Option<identity::IdentityView>,
    x: Seq<char>,
)
    requires
        sure_under(so_far.identities, x),
        crowd is Some && crowd->0.id == x ==> is_sure(crowd->0.confidence),
    ensures
        sure_under(resolver::step(rules, so_far, p, fp, crowd).identities, x),
{
    let list = so_far.identities;
    let r = resolver::step(rules, so_far, p, fp, crowd).identities;
    if let Some(id) = resolver::named_by_user(rules, p, fp) {
        search::lemma_first_where(list, |i: identity::IdentityView| i.id == id.id);
    }
    if let Some(id) = detectable::detectable_match(rules.detectable, p) {
        match id.steam_app_id {
            Some(sid) => search::lemma_first_where(
                list,
                |i: identity::IdentityView| i.steam_app_id == Some(sid),
            ),
            None => search::lemma_first_where(
                list,
                |i: identity::IdentityView| resolver::by_path_as(i, p.name),
            ),
        }
    }
    assert forall|k: int| 0 <= k < r.len() && (#[trigger] r[k]).id == x implies is_sure(
        r[k].confidence,
    ) by {
        if k < list.len() {
            assert(sure_under(list, x));
            assert(list[k].id == x ==> is_sure(list[k].confidence));
        }
    }
}

proof fn lemma_collected_sure(
    rules: Rules,
    procs: Seq<identity::ProcessView>,
    fps: Seq<Seq<char>>,
    answers: Seq<Option<identity::IdentityView>>,
    n: int,
    x: Seq<char>,
)
    requires
        0 <= n <= procs.len(),
        answers.len() == procs.len(),
        no_unsure_answer(answers, x),
        x.len() > 0,
        x[0] != 's',
    ensures
        sure_under(resolver::collected(rules, procs, fps, answers, n).identities, x),
    decreases n,
{
    if n == 0 {
        lemma_steam_named(procs, rules.games, rules.host);
    } else {
        lemma_collected_sure(rules, procs, fps, answers, n - 1, x);
        lemma_step_sure(
            rules,
            resolver::collected(rules, procs, fps, answers, n - 1),
            procs[n - 1],
            fps[n - 1],
            answers[n - 1],
            x,
        );
    }
}

/// An identity with this id is there, with high or medium confidence.
pub open spec fn found_surely(list: Seq<identity::IdentityView>, x: Seq<char>) -> bool {
    exists|k: int|
        0 <= k < list.len() && (#[trigger] list[k]).id == x && is_sure(list[k].confidence)
}

/// What is found with high or medium confidence at some process is tracked in the
/// end, unless the user has turned it off.
pub proof fn law_found_stays(
    rules: Rules,
    procs: Seq<identity::ProcessView>,
    fps: Seq<Seq<char>>,
    answers: Seq<Option<identity::IdentityView>>,
    n: int,
    x: Seq<char>,
)
    requires
        0 <= n <= procs.len(),
        found_surely(resolver::collected(rules, procs, fps, answers, n).identities, x),
        !keyed::has_key(rules.ignored, x),
    ensures
        identity::has_id(resolver::resolved(rules, procs, fps, answers).identities, x),
{
    let at = resolver::collected(rules, procs, fps, answers, n).identities;
    let k0 = choose|k: int|
        0 <= k < at.len() && (#[trigger] at[k]).id == x && is_sure(at[k].confidence);
    assert(at[k0].confidence.auto());
    assert(identity::is_tracked(at, x));
    lemma_tracked_stays(rules, procs, fps, answers, n, procs.len() as int, x);
    let list = resolver::collected(rules, procs, fps, answers, procs.len() as int).identities;
    let f = |i: identity::IdentityView| resolver::kept(rules.ignored, i);
    let k = choose|k: int|
        0 <= k < list.len() && (#[trigger] list[k]).id == x && list[k].confidence.auto();
    list.lemma_filter_contains(f, k);
    let m = choose|m: int| 0 <= m < list.filter(f).len() && list.filter(f)[m] == list[k];
    assert(resolver::resolved(rules, procs, fps, answers).identities[m].id == x);
}

proof fn lemma_tracked_stays(
    rules: Rules,
    procs: Seq<identity::ProcessView>,
    fps: Seq<Seq<char>>,
    answers: Seq<Option<identity::IdentityView>>,
    n: int,
    m: int,
    x: Seq<char>,
)
    requires
        0 <= n <= m <= procs.len(),
        identity::is_tracked(resolver::collected(rules, procs, fps, answers, n).identities, x),
    ensures
        identity::is_tracked(resolver::collected(rules, procs, fps, answers, m).identities, x),
    decreases m,
{
    if n < m {
        lemma_tracked_stays(rules, procs, fps, answers, n, m - 1, x);
        resolver::lemma_step_keeps(
            rules,
            resolver::collected(rules, procs, fps, answers, m - 1),
            procs[m - 1],
            fps[m - 1],
            answers[m - 1],
            x,
        );
    }
}

// ---------------------------------------------------------------------------
// What waits for the user
// ---------------------------------------------------------------------------

/// What waits after one process: what waited before, and at most one detection
/// more, whatever has been found before.
proof fn lemma_pending_added(
    rules: Rules,
    so_far: Findings,
    other: Findings,
    p: identity::ProcessView,
    fp: Seq<char>,
    crowd: Option<identity::IdentityView>,
)
    ensures
        ({
            let a = resolver::step(rules, so_far, p, fp, crowd).pending;
            let b = resolver::step(rules, other, p, fp, crowd).pending;
            ||| a == so_far.pending && b == other.pending
            ||| a.len() == so_far.pending.len() + 1 && b.len() == other.pending.len() + 1
                && a.last() == b.last() && a.drop_last() == so_far.pending && b.drop_last()
                == other.pending
        }),
{
    let a = resolver::step(rules, so_far, p, fp, crowd).pending;
    let b = resolver::step(rules, other, p, fp, crowd).pending;
    if a != so_far.pending {
        assert(a.drop_last() =~= so_far.pending);
        assert(b.drop_last() =~= other.pending);
    }
}

proof fn lemma_pending_without(
    rules: Rules,
    procs: Seq<identity::ProcessView>,
    fps: Seq<Seq<char>>,
    answers: Seq<Option<identity::IdentityView>>,
    j: int,
    n: int,
)
    requires
        0 <= j < procs.len(),
        fps.len() == procs.len(),
        answers.len() == procs.len(),
        0 <= n <= procs.len(),
        resolver::step(
            rules,
            resolver::collected(rules, procs, fps, answers, j),
            procs[j],
            fps[j],
            answers[j],
        ).pending == resolver::collected(rules, procs, fps, answers, j).pending,
    ensures
        resolver::collected(
            rules,
            procs.remove(j),
            fps.remove(j),
            answers.remove(j),
            if n <= j {
                n
            } else {
                n - 1
            },
        ).pending == resolver::collected(rules, procs, fps, answers, n).pending,
    decreases n,
{
    let ps = procs.remove(j);
    let fs = fps.remove(j);
    let ans = answers.remove(j);
    if n > 0 {
        lemma_pending_without(rules, procs, fps, answers, j, n - 1);
        if n <= j {
            assert(ps[n - 1] == procs[n - 1] && fs[n - 1] == fps[n - 1] && ans[n - 1]
                == answers[n - 1]);
            lemma_pending_added(
                rules,
                resolver::collected(rules, ps, fs, ans, n - 1),
                resolver::collected(rules, procs, fps, answers, n - 1),
                procs[n - 1],
                fps[n - 1],
                answers[n - 1],
            );
            lemma_same_push(
                resolver::collected(rules, ps, fs, ans, n).pending,
                resolver::collected(rules, procs, fps, answers, n).pending,
                resolver::collected(rules, procs, fps, answers, n - 1).pending,
            );
        } else if n == j + 1 {
        } else {
            assert(ps[n - 2] == procs[n - 1] && fs[n - 2] == fps[n - 1] && ans[n - 2]
                == answers[n - 1]);
            lemma_pending_added(
                rules,
                resolver::collected(rules, ps, fs, ans, n - 2),
                resolver::collected(rules, procs, fps, answers, n - 1),
                procs[n - 1],
                fps[n - 1],
                answers[n - 1],
            );
            lemma_same_push(
                resolver::collected(rules, ps, fs, ans, n - 1).pending,
                resolver::collected(rules, procs, fps, answers, n).pending,
                resolver::collected(rules, procs, fps, answers, n - 1).pending,
            );
        }
    }
}

proof fn lemma_same_push(
    a: Seq<identity::PendingView>,
    b: Seq<identity::PendingView>,
    before: Seq<identity::PendingView>,
)
    requires
        a == before && b == before || a.len() == before.len() + 1 && b.len() == before.len() + 1
            && a.last() == b.last() && a.drop_last() == before && b.drop_last() == before,
    ensures
        a == b,
{
    if a.len() > before.len() {
        assert(a =~= a.drop_last().push(a.last()));
        assert(b =~= b.drop_last().push(b.last()));
    }
}

proof fn lemma_pending_grows(
    rules: Rules,
    procs: Seq<identity::ProcessView>,
    fps: Seq<Seq<char>>,
    answers: Seq<Option<identity::IdentityView>>,
    n: int,
    m: int,
)
    requires
        0 <= n <= m <= procs.len(),
    ensures
        resolver::collected(rules, procs, fps, answers, n).pending.len() <= resolver::collected(
            rules,
            procs,
            fps,
            answers,
            m,
        ).pending.len(),
        forall|k: int|
            0 <= k < resolver::collected(rules, procs, fps, answers, n).pending.len()
                ==> #[trigger] resolver::collected(rules, procs, fps, answers, n).pending[k]
                == resolver::collected(rules, procs, fps, answers, m).pending[k],
    decreases m,
{
    if n < m {
        lemma_pending_grows(rules, procs, fps, answers, n, m - 1);
        let before = resolver::collected(rules, procs, fps, answers, m - 1);
        lemma_pending_added(rules, before, before, procs[m - 1], fps[m - 1], answers[m - 1]);
        let a = resolver::collected(rules, procs, fps, answers, m).pending;
        if a != before.pending {
            assert forall|k: int| 0 <= k < before.pending.len() implies a[k]
                == #[trigger] before.pending[k] by {
                assert(a.drop_last()[k] == a[k]);
            }
        }
    }
}

/// What waits after some process waits in the end, unless the user has turned its
/// identity off.
pub proof fn law_waiting_stays(
    rules: Rules,
    procs: Seq<identity::ProcessView>,
    fps: Seq<Seq<char>>,
    answers: Seq<Option<identity::IdentityView>>,
    n: int,
    k: int,
)
    requires
        0 <= n <= procs.len(),
        0 <= k < resolver::collected(rules, procs, fps, answers, n).pending.len(),
        ({
            let d = resolver::collected(rules, procs, fps, answers, n).pending[k];
            d.identity_id is Some ==> !keyed::has_key(rules.ignored, d.identity_id->0)
        }),
    ensures
        resolver::resolved(rules, procs, fps, answers).pending.contains(
            resolver::collected(rules, procs, fps, answers, n).pending[k],
        ),
{
    lemma_pending_grows(rules, procs, fps, answers, n, procs.len() as int);
    let list = resolver::collected(rules, procs, fps, answers, procs.len() as int).pending;
    let f = |p: identity::PendingView| resolver::shown(rules.ignored, p);
    assert(list[k] == resolver::collected(rules, procs, fps, answers, n).pending[k]);
    list.lemma_filter_contains(f, k);
}

// ---------------------------------------------------------------------------
// The catalogs
// ---------------------------------------------------------------------------

/// The id that the local catalog gives does not begin as that of a Steam game.
proof fn lemma_catalog_letter(rules: Rules, p: identity::ProcessView)
    ensures
        match catalog::catalog_match(rules.catalog, p, rules.host.catalog_label()) {
            Some(id) => id.id.len() > 0 && id.id[0] == 'c',
            None => true,
        },
{
    reveal_strlit("catalog:");
}

/// A process that is left to the catalogs, and that the local catalog knows: where
/// the match has high or medium confidence and its id is not turned off, a game
/// with that id is tracked, and the process makes nothing wait for the user; where
/// it has less and its id is not turned off, it is offered to the user under the
/// title and the id of the match. (The crowd gives no unsure answer with that id
/// to another process.)
pub proof fn law_catalog_match_counts(
    rules: Rules,
    procs: Seq<identity::ProcessView>,
    fps: Seq<Seq<char>>,
    answers: Seq<Option<identity::IdentityView>>,
    j: int,
    id: identity::IdentityView,
)
    requires
        0 <= j < procs.len(),
        fps.len() == procs.len(),
        answers.len() == procs.len(),
        left_to_catalogs(rules, procs[j], fps[j], answers[j]),
        catalog::catalog_match(rules.catalog, procs[j], rules.host.catalog_label()) == Some(id),
    ensures
        is_sure(id.confidence) && !keyed::has_key(rules.ignored, id.id) && no_unsure_answer(
            answers,
            id.id,
        ) ==> identity::has_id(
            resolver::resolved(rules, procs, fps, answers).identities,
            id.id,
        ),
        is_sure(id.confidence) ==> resolver::resolved(
            rules,
            procs.remove(j),
            fps.remove(j),
            answers.remove(j),
        ).pending == resolver::resolved(rules, procs, fps, answers).pending,
        !is_sure(id.confidence) && !keyed::has_key(rules.ignored, id.id) ==> waits_for(
            resolver::resolved(rules, procs, fps, answers).pending,
            procs[j],
            fps[j],
            id.title,
            id.id,
        ),
{
    let before = resolver::collected(rules, procs, fps, answers, j);
    let after = resolver::collected(rules, procs, fps, answers, j + 1);
    lemma_catalog_letter(rules, procs[j]);
    if is_sure(id.confidence) {
        lemma_pending_without(rules, procs, fps, answers, j, procs.len() as int);
        if !keyed::has_key(rules.ignored, id.id) && no_unsure_answer(answers, id.id) {
            identity::lemma_with_unique(before.identities, id);
            lemma_collected_sure(rules, procs, fps, answers, j + 1, id.id);
            let k = choose|k: int|
                0 <= k < after.identities.len() && (#[trigger] after.identities[k]).id == id.id;
            assert(after.identities[k].id == id.id && is_sure(after.identities[k].confidence));
            law_found_stays(rules, procs, fps, answers, j + 1, id.id);
        }
    } else if !keyed::has_key(rules.ignored, id.id) {
        let k = before.pending.len() as int;
        law_waiting_stays(rules, procs, fps, answers, j + 1, k);
        let d = after.pending[k];
        let all = resolver::resolved(rules, procs, fps, answers).pending;
        let m = choose|m: int| 0 <= m < all.len() && all[m] == d;
        assert(tells_of(all[m], procs[j], fps[j], id.title, id.id));
    }
}

/// A process that is left to the catalogs, that the local catalog does not know,
/// and that the Discord catalog knows: where the match has less than medium
/// confidence, it is offered to the user, and nothing else changes; else nothing
/// more waits for the user.
pub proof fn law_discord_match_counts(
    rules: Rules,
    procs: Seq<identity::ProcessView>,
    fps: Seq<Seq<char>>,
    answers: Seq<Option<identity::IdentityView>>,
    j: int,
    d: identity::IdentityView,
)
    requires
        0 <= j < procs.len(),
        fps.len() == procs.len(),
        answers.len() == procs.len(),
        left_to_catalogs(rules, procs[j], fps[j], answers[j]),
        catalog::catalog_match(rules.catalog, procs[j], rules.host.catalog_label()) is None,
        detectable::detectable_match(rules.detectable, procs[j]) == Some(d),
    ensures
        !is_sure(d.confidence) && !keyed::has_key(rules.ignored, d.id) ==> waits_for(
            resolver::resolved(rules, procs, fps, answers).pending,
            procs[j],
            fps[j],
            d.title,
            d.id,
        ),
        !is_sure(d.confidence) ==> resolver::collected(rules, procs, fps, answers, j + 1).identities
            == resolver::collected(rules, procs, fps, answers, j).identities,
        is_sure(d.confidence) ==> resolver::resolved(
            rules,
            procs.remove(j),
            fps.remove(j),
            answers.remove(j),
        ).pending == resolver::resolved(rules, procs, fps, answers).pending,
{
    let before = resolver::collected(rules, procs, fps, answers, j);
    let after = resolver::collected(rules, procs, fps, answers, j + 1);
    if is_sure(d.confidence) {
        lemma_pending_without(rules, procs, fps, answers, j, procs.len() as int);
    } else if !keyed::has_key(rules.ignored, d.id) {
        let k = before.pending.len() as int;
        law_waiting_stays(rules, procs, fps, answers, j + 1, k);
        let w = after.pending[k];
        let all = resolver::resolved(rules, procs, fps, answers).pending;
        let m = choose|m: int| 0 <= m < all.len() && all[m] == w;
        assert(tells_of(all[m], procs[j], fps[j], d.title, d.id));
    }
}

/// What a sure match with the Discord catalog does to what was found before. One
/// with a Steam id makes the first game with that Steam id at least medium, or is
/// added where there is none. One without makes the first game that was found by
/// its Steam path and runs under the name of the process medium, or is added where
/// there is none. All else stays.
pub proof fn law_discord_confirms(
    list: Seq<identity::IdentityView>,
    d: identity::IdentityView,
    name: Seq<char>,
    k: int,
)
    requires
        0 <= k < list.len(),
        match d.steam_app_id {
            Some(sid) => list[k].steam_app_id == Some(sid) && forall|m: int|
                0 <= m < k ==> (#[trigger] list[m]).steam_app_id != Some(sid),
            None => resolver::by_path_as(list[k], name) && forall|m: int|
                0 <= m < k ==> !resolver::by_path_as(#[trigger] list[m], name),
        },
    ensures
        ({
            let r = resolver::absorbed(list, d, name);
            &&& r.len() == list.len()
            &&& forall|m: int| 0 <= m < list.len() && m != k ==> #[trigger] r[m] == list[m]
            &&& r[k].id == list[k].id
            &&& r[k].title == list[k].title
            &&& r[k].steam_app_id == list[k].steam_app_id
            &&& r[k].exe == list[k].exe
            &&& r[k].source == list[k].source
            &&& list[k].confidence == Confidence::Low ==> r[k].confidence == Confidence::Medium
            &&& d.steam_app_id is Some && list[k].confidence != Confidence::Low
                ==> r[k].confidence == list[k].confidence
            &&& d.steam_app_id is None ==> r[k].confidence == Confidence::Medium
        }),
{
    match d.steam_app_id {
        Some(sid) => {
            search::lemma_first_is(
                list,
                |i: identity::IdentityView| i.steam_app_id == Some(sid),
                k,
            );
        },
        None => {
            search::lemma_first_is(
                list,
                |i: identity::IdentityView| resolver::by_path_as(i, name),
                k,
            );
        },
    }
}

/// A sure match with the Discord catalog that confirms no game is added, unless a
/// game with its id is there.
pub proof fn law_discord_adds(
    list: Seq<identity::IdentityView>,
    d: identity::IdentityView,
    name: Seq<char>,
)
    requires
        match d.steam_app_id {
            Some(sid) => forall|m: int|
                0 <= m < list.len() ==> (#[trigger] list[m]).steam_app_id != Some(sid),
            None => forall|m: int|
                0 <= m < list.len() ==> !((#[trigger] list[m]).source == "steam-path"@
                    && list[m].exe is Some && text::same_letters(list[m].exe->0, name)),
        },
    ensures
        (forall|m: int| 0 <= m < list.len() ==> (#[trigger] list[m]).id != d.id)
            ==> resolver::absorbed(list, d, name) == list.push(d),
        (exists|m: int| 0 <= m < list.len() && (#[trigger] list[m]).id == d.id)
            ==> resolver::absorbed(list, d, name) == list,
{
    match d.steam_app_id {
        Some(sid) => {
            search::lemma_first_where(
                list,
                |i: identity::IdentityView| i.steam_app_id == Some(sid),
            );
        },
        None => {
            search::lemma_first_where(
                list,
                |i: identity::IdentityView| resolver::by_path_as(i, name),
            );
        },
    }
}

// ---------------------------------------------------------------------------
// The order of the sources
// ---------------------------------------------------------------------------

/// What the user has mapped is tracked, whatever else is said of the process: under
/// the id and, where no game with that id was found before, with the title of the
/// mapping. Nothing waits for the user.
pub proof fn law_mapping_counts_first(
    rules: Rules,
    so_far: Findings,
    p: identity::ProcessView,
    fp: Seq<char>,
    crowd: Option<identity::IdentityView>,
    m: UserMapping,
)
    requires
        !deny::denied(p.name),
        keyed::lookup(rules.mappings, fp) == Some(m),
    ensures
        ({
            let r = resolver::step(rules, so_far, p, fp, crowd);
            &&& r.pending == so_far.pending
            &&& exists|k: int|
                0 <= k < r.identities.len() && (#[trigger] r.identities[k]).id == m.identity_id@
                    && is_sure(r.identities[k].confidence)
            &&& !identity::has_id(so_far.identities, m.identity_id@) ==> {
                let x = r.identities[so_far.identities.len() as int];
                &&& r.identities == so_far.identities.push(x)
                &&& x.id == m.identity_id@
                &&& x.title == m.title@
                &&& x.steam_app_id is None
                &&& x.exe == Some(p.name)
                &&& x.confidence == Confidence::Medium
                &&& x.source == "user"@
                &&& x.fingerprint == Some(fp)
            }
        }),
{
    let list = so_far.identities;
    let id = resolver::mapped_identity(m, p.name, fp);
    identity::lemma_with_truth(list, id);
    search::lemma_first_where(list, |i: identity::IdentityView| i.id == id.id);
    let r = resolver::step(rules, so_far, p, fp, crowd).identities;
    let k = choose|k: int|
        0 <= k < r.len() && (#[trigger] r[k]).id == id.id && r[k].confidence.auto();
    assert(r[k].id == m.identity_id@ && is_sure(r[k].confidence));
}

/// Where the user has mapped nothing, the first game that the user has entered and
/// that fits the process is tracked: under its Steam id if it has one, else under
/// its own, and with its title.
pub proof fn law_entered_game_counts_next(
    rules: Rules,
    so_far: Findings,
    p: identity::ProcessView,
    fp: Seq<char>,
    crowd: Option<identity::IdentityView>,
    k: int,
)
    requires
        !deny::denied(p.name),
        keyed::lookup(rules.mappings, fp) is None,
        0 <= k < rules.manual.len(),
        resolver::manual_fits(rules.manual[k], p),
        forall|m: int| 0 <= m < k ==> !resolver::manual_fits(#[trigger] rules.manual[m], p),
    ensures
        ({
            let g = rules.manual[k];
            let id = if g.steam_app_id is Some {
                steam_library::steam_id(g.steam_app_id->0)
            } else {
                "manual:"@ + g.id
            };
            let r = resolver::step(rules, so_far, p, fp, crowd);
            &&& r.pending == so_far.pending
            &&& exists|m: int|
                0 <= m < r.identities.len() && (#[trigger] r.identities[m]).id == id && is_sure(
                    r.identities[m].confidence,
                )
            &&& !identity::has_id(so_far.identities, id) ==> {
                let x = r.identities[so_far.identities.len() as int];
                &&& r.identities == so_far.identities.push(x)
                &&& x.id == id
                &&& x.title == g.title
                &&& x.steam_app_id == g.steam_app_id
                &&& x.exe == Some(p.name)
                &&& x.confidence == Confidence::Medium
                &&& x.source == "manual"@
            }
        }),
{
    let list = so_far.identities;
    search::lemma_first_is(
        rules.manual,
        |g: identity::ManualView| resolver::manual_fits(g, p),
        k,
    );
    let id = resolver::manual_identity(rules.manual[k], p.name);
    identity::lemma_with_truth(list, id);
    search::lemma_first_where(list, |i: identity::IdentityView| i.id == id.id);
    let r = resolver::step(rules, so_far, p, fp, crowd).identities;
    let m = choose|m: int|
        0 <= m < r.len() && (#[trigger] r[m]).id == id.id && r[m].confidence.auto();
    assert(r[m].id == id.id && is_sure(r[m].confidence));
}

/// What the crowd says of a process that the user has not named is taken as it is,
/// unless a game with that id was found before; the catalogs are not asked.
pub proof fn law_crowd_counts_before_catalogs(
    rules: Rules,
    so_far: Findings,
    p: identity::ProcessView,
    fp: Seq<char>,
    answer: identity::IdentityView,
)
    requires
        !deny::denied(p.name),
        keyed::lookup(rules.mappings, fp) is None,
        resolver::manual_match(rules.manual, p) is None,
    ensures
        ({
            let r = resolver::step(rules, so_far, p, fp, Some(answer));
            &&& r.pending == so_far.pending
            &&& !identity::has_id(so_far.identities, answer.id) ==> r.identities
                == so_far.identities.push(answer)
            &&& identity::has_id(so_far.identities, answer.id) ==> r.identities
                == so_far.identities
        }),
{
}

/// Helpers and wrappers that neither the user nor the crowd has named change
/// nothing, even where a catalog knows them.
pub proof fn law_helpers_are_passed_over(
    rules: Rules,
    so_far: Findings,
    p: identity::ProcessView,
    fp: Seq<char>,
)
    requires
        keyed::lookup(rules.mappings, fp) is None,
        resolver::manual_match(rules.manual, p) is None,
        platform::windows::sidecar(p) || platform::linux::wraps(p.name),
    ensures
        resolver::step(rules, so_far, p, fp, None) == so_far,
{
}

/// What the local catalog knows, it alone decides: the Discord catalog makes no
/// difference.
pub proof fn law_local_catalog_comes_first(
    rules: Rules,
    other: detectable::DetectableView,
    so_far: Findings,
    p: identity::ProcessView,
    fp: Seq<char>,
    crowd: Option<identity::IdentityView>,
)
    requires
        catalog::catalog_match(rules.catalog, p, rules.host.catalog_label()) is Some,
    ensures
        resolver::step(rules, so_far, p, fp, crowd) == resolver::step(
            Rules { detectable: other, ..rules },
            so_far,
            p,
            fp,
            crowd,
        ),
{
}

// ---------------------------------------------------------------------------
// Where findings come from
// ---------------------------------------------------------------------------

/// The identity, but for its confidence, is what one of the sources says of the
/// process.
pub open spec fn said_of(
    rules: Rules,
    p: identity::ProcessView,
    fp: Seq<char>,
    answer: Option<identity::IdentityView>,
    i: identity::IdentityView,
) -> bool {
    &&& !deny::denied(p.name)
    &&& {
        ||| keyed::lookup(rules.mappings, fp) is Some && i.id == keyed::lookup(
            rules.mappings,
            fp,
        )->0.identity_id@ && i.title == keyed::lookup(rules.mappings, fp)->0.title@
        ||| exists|k: int|
            {
                &&& 0 <= k < rules.manual.len()
                &&& resolver::manual_fits(#[trigger] rules.manual[k], p)
                &&& i.title == rules.manual[k].title
                &&& i.steam_app_id == rules.manual[k].steam_app_id
            }
        ||| answer is Some && i.id == answer->0.id && i.title == answer->0.title
        ||| exists|m: identity::IdentityView|
            {
                &&& catalog::catalog_match(rules.catalog, p, rules.host.catalog_label()) == Some(m)
                    || detectable::detectable_match(rules.detectable, p) == Some(m)
                &&& #[trigger] is_sure(m.confidence)
                &&& i.id == m.id
                &&& i.title == m.title
                &&& i.steam_app_id == m.steam_app_id
            }
    }
}

/// The identity is that of a game of the list.
pub open spec fn is_among(
    list: Seq<identity::IdentityView>,
    i: identity::IdentityView,
) -> bool {
    exists|k: int|
        {
            &&& 0 <= k < list.len()
            &&& i.id == (#[trigger] list[k]).id
            &&& i.title == list[k].title
            &&& i.steam_app_id == list[k].steam_app_id
        }
}

/// The identity is a Steam game among the processes, or what some source says of
/// one of them.
pub open spec fn has_origin(
    rules: Rules,
    procs: Seq<identity::ProcessView>,
    fps: Seq<Seq<char>>,
    answers: Seq<Option<identity::IdentityView>>,
    n: int,
    i: identity::IdentityView,
) -> bool {
    ||| is_among(platform::steam_games(procs, rules.games, rules.host), i)
    ||| exists|j: int| 0 <= j < n && said_of(rules, #[trigger] procs[j], fps[j], answers[j], i)
}

proof fn lemma_origin_stays(
    rules: Rules,
    procs: Seq<identity::ProcessView>,
    fps: Seq<Seq<char>>,
    answers: Seq<Option<identity::IdentityView>>,
    n: int,
    i: identity::IdentityView,
    r: identity::IdentityView,
)
    requires
        has_origin(rules, procs, fps, answers, n, i),
        r.id == i.id,
        r.title == i.title,
        r.steam_app_id == i.steam_app_id,
    ensures
        has_origin(rules, procs, fps, answers, n + 1, r),
{
    if exists|j: int| 0 <= j < n && said_of(rules, #[trigger] procs[j], fps[j], answers[j], i) {
        let j = choose|j: int|
            0 <= j < n && said_of(rules, #[trigger] procs[j], fps[j], answers[j], i);
        assert(said_of(rules, procs[j], fps[j], answers[j], r));
    } else {
        let steam = platform::steam_games(procs, rules.games, rules.host);
        let k = choose|k: int|
            0 <= k < steam.len() && i.id == (#[trigger] steam[k]).id && i.title == steam[k].title
                && i.steam_app_id == steam[k].steam_app_id;
        assert(r.id == steam[k].id);
    }
}

proof fn lemma_collected_origin(
    rules: Rules,
    procs: Seq<identity::ProcessView>,
    fps: Seq<Seq<char>>,
    answers: Seq<Option<identity::IdentityView>>,
    n: int,
    k: int,
)
    requires
        0 <= n <= procs.len(),
        0 <= k < resolver::collected(rules, procs, fps, answers, n).identities.len(),
    ensures
        has_origin(
            rules,
            procs,
            fps,
            answers,
            n,
            resolver::collected(rules, procs, fps, answers, n).identities[k],
        ),
    decreases n,
{
    let r = resolver::collected(rules, procs, fps, answers, n).identities;
    if n == 0 {
        assert(r[k].id == platform::steam_games(procs, rules.games, rules.host)[k].id);
    } else {
        let before = resolver::collected(rules, procs, fps, answers, n - 1);
        let list = before.identities;
        let p = procs[n - 1];
        let fp = fps[n - 1];
        let answer = answers[n - 1];
        if let Some(id) = resolver::named_by_user(rules, p, fp) {
            search::lemma_first_where(list, |i: identity::IdentityView| i.id == id.id);
            search::lemma_first_where(
                rules.manual,
                |g: identity::ManualView| resolver::manual_fits(g, p),
            );
        }
        if let Some(d) = detectable::detectable_match(rules.detectable, p) {
            resolver::law_absorb_keeps_games(list, d, p.name);
        }
        if k < list.len() && r[k].id == list[k].id && r[k].title == list[k].title
            && r[k].steam_app_id == list[k].steam_app_id {
            lemma_collected_origin(rules, procs, fps, answers, n - 1, k);
            lemma_origin_stays(rules, procs, fps, answers, n - 1, list[k], r[k]);
        } else {
            lemma_new_is_said(rules, before, p, fp, answer, k);
            assert(said_of(rules, procs[n - 1], fps[n - 1], answers[n - 1], r[k]));
        }
    }
}

proof fn lemma_new_is_said(
    rules: Rules,
    so_far: Findings,
    p: identity::ProcessView,
    fp: Seq<char>,
    answer: Option<identity::IdentityView>,
    k: int,
)
    requires
        ({
            let list = so_far.identities;
            let r = resolver::step(rules, so_far, p, fp, answer).identities;
            &&& 0 <= k < r.len()
            &&& !(k < list.len() && r[k].id == list[k].id && r[k].title == list[k].title
                && r[k].steam_app_id == list[k].steam_app_id)
        }),
    ensures
        said_of(
            rules,
            p,
            fp,
            answer,
            resolver::step(rules, so_far, p, fp, answer).identities[k],
        ),
{
    let list = so_far.identities;
    let r = resolver::step(rules, so_far, p, fp, answer).identities;
    if deny::denied(p.name) {
    } else if let Some(m) = keyed::lookup(rules.mappings, fp) {
        let id = resolver::mapped_identity(m, p.name, fp);
        search::lemma_first_where(list, |i: identity::IdentityView| i.id == id.id);
        assert(r[k] == id);
    } else if let Some(id) = resolver::manual_match(rules.manual, p) {
        search::lemma_first_where(list, |i: identity::IdentityView| i.id == id.id);
        let f = |g: identity::ManualView| resolver::manual_fits(g, p);
        search::lemma_first_where(rules.manual, f);
        let at = search::first_where(rules.manual, f)->0;
        assert(r[k] == id);
        assert(f(rules.manual[at]));
        assert(resolver::manual_fits(rules.manual[at], p));
    } else if let Some(id) = answer {
        assert(r[k] == id);
    } else if platform::windows::sidecar(p) || platform::linux::wraps(p.name) {
    } else if let Some(id) = catalog::catalog_match(
        rules.catalog,
        p,
        rules.host.catalog_label(),
    ) {
        if is_sure(id.confidence) {
            assert(r[k] == id);
        }
    } else if let Some(d) = detectable::detectable_match(rules.detectable, p) {
        resolver::law_absorb_keeps_games(list, d, p.name);
        if is_sure(d.confidence) {
            assert(k == list.len());
            assert(r[k] == d);
        }
    }
}

/// Nothing is made up: every game that is tracked is a Steam game among the
/// processes, or what the user, the crowd or a sure match with a catalog says of
/// one that is not denied.
pub proof fn law_tracked_has_an_origin(
    rules: Rules,
    procs: Seq<identity::ProcessView>,
    fps: Seq<Seq<char>>,
    answers: Seq<Option<identity::IdentityView>>,
    k: int,
)
    requires
        0 <= k < resolver::resolved(rules, procs, fps, answers).identities.len(),
    ensures
        has_origin(
            rules,
            procs,
            fps,
            answers,
            procs.len() as int,
            resolver::resolved(rules, procs, fps, answers).identities[k],
        ),
{
    let n = procs.len() as int;
    let list = resolver::collected(rules, procs, fps, answers, n).identities;
    let f = |i: identity::IdentityView| resolver::kept(rules.ignored, i);
    list.lemma_filter_pred(f, k);
    list.lemma_filter_contains_rev(f, list.filter(f)[k]);
    let m = choose|m: int| 0 <= m < list.len() && list[m] == list.filter(f)[k];
    lemma_collected_origin(rules, procs, fps, answers, n, m);
}

/// The detection tells of a process that is left to the catalogs, and of a match of
/// a catalog that is not sure enough to be tracked.
pub open spec fn is_unsure_match(
    rules: Rules,
    p: identity::ProcessView,
    fp: Seq<char>,
    answer: Option<identity::IdentityView>,
    d: identity::PendingView,
) -> bool {
    &&& left_to_catalogs(rules, p, fp, answer)
    &&& exists|m: identity::IdentityView|
        {
            &&& catalog::catalog_match(rules.catalog, p, rules.host.catalog_label()) == Some(m)
                || detectable::detectable_match(rules.detectable, p) == Some(m)
            &&& !#[trigger] is_sure(m.confidence)
            &&& tells_of(d, p, fp, m.title, m.id)
        }
}

/// Only unsure matches wait for the user: every detection that waits tells of a
/// process that nothing but a catalog knows, and that not for sure.
pub proof fn law_waiting_is_unsure(
    rules: Rules,
    procs: Seq<identity::ProcessView>,
    fps: Seq<Seq<char>>,
    answers: Seq<Option<identity::IdentityView>>,
    k: int,
)
    requires
        0 <= k < resolver::resolved(rules, procs, fps, answers).pending.len(),
    ensures
        exists|j: int|
            0 <= j < procs.len() && is_unsure_match(
                rules,
                #[trigger] procs[j],
                fps[j],
                answers[j],
                resolver::resolved(rules, procs, fps, answers).pending[k],
            ),
{
    let n = procs.len() as int;
    let list = resolver::collected(rules, procs, fps, answers, n).pending;
    let f = |p: identity::PendingView| resolver::shown(rules.ignored, p);
    list.lemma_filter_pred(f, k);
    list.lemma_filter_contains_rev(f, list.filter(f)[k]);
    let m = choose|m: int| 0 <= m < list.len() && list[m] == list.filter(f)[k];
    lemma_collected_waiting(rules, procs, fps, answers, n, m);
}

proof fn lemma_collected_waiting(
    rules: Rules,
    procs: Seq<identity::ProcessView>,
    fps: Seq<Seq<char>>,
    answers: Seq<Option<identity::IdentityView>>,
    n: int,
    k: int,
)
    requires
        0 <= n <= procs.len(),
        0 <= k < resolver::collected(rules, procs, fps, answers, n).pending.len(),
    ensures
        exists|j: int|
            0 <= j < n && is_unsure_match(
                rules,
                #[trigger] procs[j],
                fps[j],
                answers[j],
                resolver::collected(rules, procs, fps, answers, n).pending[k],
            ),
    decreases n,
{
    if n > 0 {
        let before = resolver::collected(rules, procs, fps, answers, n - 1);
        let r = resolver::collected(rules, procs, fps, answers, n).pending;
        if k < before.pending.len() {
            lemma_collected_waiting(rules, procs, fps, answers, n - 1, k);
            assert(r[k] == before.pending[k]);
            let j = choose|j: int|
                0 <= j < n - 1 && is_unsure_match(
                    rules,
                    #[trigger] procs[j],
                    fps[j],
                    answers[j],
                    before.pending[k],
                );
            assert(is_unsure_match(rules, procs[j], fps[j], answers[j], r[k]));
        } else {
            let p = procs[n - 1];
            let fp = fps[n - 1];
            let local = catalog::catalog_match(rules.catalog, p, rules.host.catalog_label());
            let m = if local is Some {
                local->0
            } else {
                detectable::detectable_match(rules.detectable, p)->0
            };
            assert(!is_sure(m.confidence));
            assert(tells_of(r[k], p, fp, m.title, m.id));
            assert(is_unsure_match(rules, procs[n - 1], fp, answers[n - 1], r[k]));
        }
    }
}

} // verus!
