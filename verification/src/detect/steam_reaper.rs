//! Steam games that are known by the marker in a command line.

use vstd::prelude::*;

use crate::identity;
use crate::identity::deny;
use crate::identity::deny::is_denied;
use crate::identity::steam_library;
use crate::identity::steam_library::{
    cmdline_has_app_id, parse_reaper_app_ids, SteamGame, SteamLibraryIndex,
};
use crate::identity::{push_unique, GameIdentity, ProcessSnapshot};
use crate::text;
use crate::text::has_text;

verus! {

/// The identity of a Steam game that was launched by `name`.
pub open spec fn launched(
    games: Map<u32, SteamGame>,
    app_id: u32,
    name: Seq<char>,
) -> identity::IdentityView {
    identity::IdentityView {
        exe: Some(name),
        ..steam_library::app_identity(games, app_id)
    }
}

/// `list` with the games of `ids` that the command line has.
pub open spec fn with_launched(
    list: Seq<identity::IdentityView>,
    ids: Seq<u32>,
    name: Seq<char>,
    cmdline: Seq<char>,
    games: Map<u32, SteamGame>,
) -> Seq<identity::IdentityView>
    decreases ids.len(),
{
    if ids.len() == 0 {
        list
    } else {
        let before = with_launched(list, ids.drop_last(), name, cmdline, games);
        if steam_library::has_app_id(cmdline, ids.last()) {
            identity::with_unique(before, launched(games, ids.last(), name))
        } else {
            before
        }
    }
}

/// The games that the markers in the command lines name, each once, in the order
/// of the processes; denied processes do not count.
pub open spec fn launched_games(
    procs: Seq<identity::ProcessView>,
    games: Map<u32, SteamGame>,
) -> Seq<identity::IdentityView>
    decreases procs.len(),
{
    if procs.len() == 0 {
        Seq::empty()
    } else {
        let before = launched_games(procs.drop_last(), games);
        let p = procs.last();
        match p.cmdline {
            Some(cmd) => if deny::denied(p.name) {
                before
            } else {
                with_launched(before, steam_library::reaper_ids(cmd), p.name, cmd, games)
            },
            None => before,
        }
    }
}

fn add_launched(
    list: &mut Vec<GameIdentity>,
    ids: &Vec<u32>,
    name: &String,
    cmdline: &str,
    steam: &SteamLibraryIndex,
)
    ensures
        identity::id_views(final(list)@) == with_launched(
            identity::id_views(old(list)@),
            ids@,
            name@,
            cmdline@,
            steam.games@,
        ),
{
    let ghost start = identity::id_views(list@);
    let mut k: usize = 0;
    while k < ids.len()
        invariant
            k <= ids@.len(),
            identity::id_views(list@) == with_launched(
                start,
                ids@.take(k as int),
                name@,
                cmdline@,
                steam.games@,
            ),
        decreases ids.len() - k,
    {
        assert(ids@.take(k + 1).drop_last() == ids@.take(k as int));
        let app_id: u32 = ids[k];
        if cmdline_has_app_id(cmdline, app_id) {
            if let Some(found) = steam.resolve_app_id(app_id) {
                let id = GameIdentity { exe: Some(name.clone()), ..found };
                assert(id@ == launched(steam.games@, app_id, name@));
                push_unique(list, id);
            }
        }
        k = k + 1;
    }
    assert(ids@.take(k as int) == ids@);
}

/// The games that the Steam markers in the command lines name, with high
/// confidence.
pub fn steamlaunch_identities(
    processes: &[ProcessSnapshot],
    steam: &SteamLibraryIndex,
) -> (r: Vec<GameIdentity>)
    ensures
        identity::id_views(r@) == launched_games(
            identity::proc_views(processes@),
            steam.games@,
        ),
{
    let ghost procs = identity::proc_views(processes@);
    let mut list: Vec<GameIdentity> = Vec::new();
    let mut i: usize = 0;
    assert(identity::id_views(list@) == Seq::<identity::IdentityView>::empty());
    while i < processes.len()
        invariant
            i <= processes@.len(),
            procs == identity::proc_views(processes@),
            identity::id_views(list@) == launched_games(procs.take(i as int), steam.games@),
        decreases processes.len() - i,
    {
        let p = &processes[i];
        assert(procs[i as int] == p@);
        assert(procs.take(i + 1).drop_last() == procs.take(i as int));
        assert(procs.take(i + 1).last() == p@);
        if !is_denied(p.name.as_str()) {
            if let Some(cmd) = &p.cmdline {
                if has_text(cmd.as_str(), "SteamLaunch AppId=") {
                    let ids = parse_reaper_app_ids(cmd.as_str());
                    add_launched(&mut list, &ids, &p.name, cmd.as_str(), steam);
                } else {
                    proof {
                        lemma_no_marker(cmd@);
                    }
                }
            }
        }
        i = i + 1;
    }
    assert(procs.take(i as int) == procs);
    list
}

/// A command line without a marker has no app ids.
proof fn lemma_no_marker(cmd: Seq<char>)
    requires
        !text::contains(cmd, steam_library::launch_marker()),
    ensures
        steam_library::reaper_ids(cmd) == Seq::<u32>::empty(),
{
    text::lemma_find_from(cmd, steam_library::launch_marker(), 0);
}

/// `ids` with the ids of `more` that the command line has, each once.
pub open spec fn with_running(ids: Seq<u32>, more: Seq<u32>, cmdline: Seq<char>) -> Seq<u32>
    decreases more.len(),
{
    if more.len() == 0 {
        ids
    } else {
        let before = with_running(ids, more.drop_last(), cmdline);
        if steam_library::has_app_id(cmdline, more.last()) && !before.contains(more.last()) {
            before.push(more.last())
        } else {
            before
        }
    }
}

/// The app ids that the command lines have, each once, in order.
pub open spec fn running_ids(procs: Seq<identity::ProcessView>) -> Seq<u32>
    decreases procs.len(),
{
    if procs.len() == 0 {
        Seq::empty()
    } else {
        let before = running_ids(procs.drop_last());
        match procs.last().cmdline {
            Some(cmd) => with_running(before, steam_library::reaper_ids(cmd), cmd),
            None => before,
        }
    }
}

/// The Steam app ids that the command lines have, each once, in the order of the
/// processes.
pub fn running_steam_app_ids(processes: &[ProcessSnapshot]) -> (r: Vec<u32>)
    ensures
        r@ == running_ids(identity::proc_views(processes@)),
{
    let ghost procs = identity::proc_views(processes@);
    let mut ids: Vec<u32> = Vec::new();
    let mut i: usize = 0;
    while i < processes.len()
        invariant
            i <= processes@.len(),
            procs == identity::proc_views(processes@),
            ids@ == running_ids(procs.take(i as int)),
        decreases processes.len() - i,
    {
        assert(procs.take(i + 1).drop_last() == procs.take(i as int));
        assert(procs.take(i + 1).last() == processes@[i as int]@);
        if let Some(cmd) = &processes[i].cmdline {
            let more = parse_reaper_app_ids(cmd.as_str());
            let ghost start = ids@;
            let mut k: usize = 0;
            while k < more.len()
                invariant
                    k <= more@.len(),
                    ids@ == with_running(start, more@.take(k as int), cmd@),
                decreases more.len() - k,
            {
                assert(more@.take(k + 1).drop_last() == more@.take(k as int));
                let id: u32 = more[k];
                if cmdline_has_app_id(cmd.as_str(), id) && !steam_library::has_id(&ids, id) {
                    ids.push(id);
                }
                k = k + 1;
            }
            assert(more@.take(k as int) == more@);
        }
        i = i + 1;
    }
    assert(procs.take(i as int) == procs);
    ids
}

/// Adding launched games keeps the ids of a list distinct.
pub proof fn lemma_launched_distinct(
    list: Seq<identity::IdentityView>,
    ids: Seq<u32>,
    name: Seq<char>,
    cmdline: Seq<char>,
    games: Map<u32, SteamGame>,
)
    requires
        identity::ids_distinct(list),
    ensures
        identity::ids_distinct(with_launched(list, ids, name, cmdline, games)),
    decreases ids.len(),
{
    if ids.len() > 0 {
        lemma_launched_distinct(list, ids.drop_last(), name, cmdline, games);
        identity::lemma_with_unique(
            with_launched(list, ids.drop_last(), name, cmdline, games),
            launched(games, ids.last(), name),
        );
    }
}

/// The games that the markers name have distinct ids.
pub proof fn lemma_launched_games_distinct(
    procs: Seq<identity::ProcessView>,
    games: Map<u32, SteamGame>,
)
    ensures
        identity::ids_distinct(launched_games(procs, games)),
    decreases procs.len(),
{
    if procs.len() > 0 {
        lemma_launched_games_distinct(procs.drop_last(), games);
        let p = procs.last();
        if p.cmdline is Some {
            lemma_launched_distinct(
                launched_games(procs.drop_last(), games),
                steam_library::reaper_ids(p.cmdline->0),
                p.name,
                p.cmdline->0,
                games,
            );
        }
    }
}

/// Processes without command lines launch nothing.
pub proof fn lemma_nothing_launched(
    procs: Seq<identity::ProcessView>,
    games: Map<u32, SteamGame>,
)
    requires
        forall|j: int| 0 <= j < procs.len() ==> (#[trigger] procs[j]).cmdline is None,
    ensures
        launched_games(procs, games).len() == 0,
    decreases procs.len(),
{
    if procs.len() > 0 {
        let t = procs.drop_last();
        assert forall|j: int| 0 <= j < t.len() implies (#[trigger] t[j]).cmdline is None by {
            assert(t[j] == procs[j]);
        }
        lemma_nothing_launched(t, games);
        assert(procs[procs.len() - 1].cmdline is None);
    }
}

/// A denied process, wherever it stands, launches nothing.
pub proof fn lemma_denied_launches_nothing(
    procs: Seq<identity::ProcessView>,
    games: Map<u32, SteamGame>,
    d: identity::ProcessView,
    at: int,
)
    requires
        deny::denied(d.name),
        0 <= at <= procs.len(),
    ensures
        launched_games(procs.insert(at, d), games) == launched_games(procs, games),
    decreases procs.len(),
{
    let more = procs.insert(at, d);
    if at == procs.len() {
        assert(more.drop_last() == procs);
    } else {
        assert(more.drop_last() == procs.drop_last().insert(at, d));
        assert(more.last() == procs.last());
        lemma_denied_launches_nothing(procs.drop_last(), games, d, at);
    }
}

} // verus!
