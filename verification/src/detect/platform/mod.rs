//! Steam games among the running processes of each system.

pub mod linux;
pub mod windows;

use vstd::prelude::*;

use crate::detect::steam_reaper;
use crate::host::HostOs;
use crate::identity;
use crate::identity::deny;
use crate::identity::deny::is_denied;
use crate::identity::steam_library;
use crate::identity::steam_library::{SteamGame, SteamLibraryIndex};
use crate::identity::{push_unique, Confidence, GameIdentity, ProcessSnapshot};

verus! {

/// The path of such a process does not make it a game.
pub open spec fn path_ignored(p: identity::ProcessView, host: HostOs) -> bool {
    deny::denied(p.name) || match host {
        HostOs::Windows => windows::sidecar(p),
        HostOs::Linux => linux::wraps(p.name),
        _ => true,
    }
}

/// `list` with the games that the paths of the processes name.
pub open spec fn with_paths(
    list: Seq<identity::IdentityView>,
    procs: Seq<identity::ProcessView>,
    games: Map<u32, SteamGame>,
    host: HostOs,
) -> Seq<identity::IdentityView>
    decreases procs.len(),
{
    if procs.len() == 0 {
        list
    } else {
        let before = with_paths(list, procs.drop_last(), games, host);
        let p = procs.last();
        match steam_library::path_match(games, p) {
            Some(id) => if path_ignored(p, host) {
                before
            } else {
                identity::with_unique(before, id)
            },
            None => before,
        }
    }
}

/// The Steam games among the processes: first those that the markers in command
/// lines name, then those that paths name, each once. Only Windows and Linux
/// are known.
pub open spec fn steam_games(
    procs: Seq<identity::ProcessView>,
    games: Map<u32, SteamGame>,
    host: HostOs,
) -> Seq<identity::IdentityView> {
    if host == HostOs::Windows || host == HostOs::Linux {
        with_paths(steam_reaper::launched_games(procs, games), procs, games, host)
    } else {
        Seq::empty()
    }
}

fn ignores_path(proc: &ProcessSnapshot, host: HostOs) -> (r: bool)
    ensures
        r == path_ignored(proc@, host),
{
    is_denied(proc.name.as_str()) || match host {
        HostOs::Windows => windows::is_install_sidecar(proc),
        HostOs::Linux => linux::is_proton_wrapper(proc.name.as_str()),
        _ => true,
    }
}

fn add_by_path(
    list: &mut Vec<GameIdentity>,
    processes: &[ProcessSnapshot],
    steam: &SteamLibraryIndex,
    host: HostOs,
)
    ensures
        identity::id_views(final(list)@) == with_paths(
            identity::id_views(old(list)@),
            identity::proc_views(processes@),
            steam.games@,
            host,
        ),
{
    let ghost start = identity::id_views(list@);
    let ghost procs = identity::proc_views(processes@);
    let mut i: usize = 0;
    while i < processes.len()
        invariant
            i <= processes@.len(),
            procs == identity::proc_views(processes@),
            identity::id_views(list@) == with_paths(
                start,
                procs.take(i as int),
                steam.games@,
                host,
            ),
        decreases processes.len() - i,
    {
        assert(procs.take(i + 1).drop_last() == procs.take(i as int));
        assert(procs.take(i + 1).last() == processes@[i as int]@);
        if !ignores_path(&processes[i], host) {
            if let Some(id) = steam.match_path(&processes[i]) {
                push_unique(list, id);
            }
        }
        i = i + 1;
    }
    assert(procs.take(i as int) == procs);
}

/// The Steam games among the processes of `host`.
pub fn detect_steam(
    processes: &[ProcessSnapshot],
    steam: &SteamLibraryIndex,
    host: HostOs,
) -> (r: Vec<GameIdentity>)
    ensures
        identity::id_views(r@) == steam_games(
            identity::proc_views(processes@),
            steam.games@,
            host,
        ),
{
    match host {
        HostOs::Windows => windows::detect_steam(processes, steam),
        HostOs::Linux => linux::detect_steam(processes, steam),
        _ => {
            let none: Vec<GameIdentity> = Vec::new();
            assert(identity::id_views(none@) == Seq::<identity::IdentityView>::empty());
            none
        },
    }
}

/// The Steam games among the processes have distinct ids.
pub proof fn law_steam_ids_distinct(
    procs: Seq<identity::ProcessView>,
    games: Map<u32, SteamGame>,
    host: HostOs,
)
    ensures
        identity::ids_distinct(steam_games(procs, games, host)),
{
    steam_reaper::lemma_launched_games_distinct(procs, games);
    lemma_paths_distinct(steam_reaper::launched_games(procs, games), procs, games, host);
}

proof fn lemma_paths_distinct(
    list: Seq<identity::IdentityView>,
    procs: Seq<identity::ProcessView>,
    games: Map<u32, SteamGame>,
    host: HostOs,
)
    requires
        identity::ids_distinct(list),
    ensures
        identity::ids_distinct(with_paths(list, procs, games, host)),
    decreases procs.len(),
{
    if procs.len() > 0 {
        lemma_paths_distinct(list, procs.drop_last(), games, host);
        if let Some(id) = steam_library::path_match(games, procs.last()) {
            identity::lemma_with_unique(with_paths(list, procs.drop_last(), games, host), id);
        }
    }
}

/// A process that counts lies in the install directory of this game.
pub open spec fn found_by_path(
    procs: Seq<identity::ProcessView>,
    games: Map<u32, SteamGame>,
    host: HostOs,
    id: identity::IdentityView,
) -> bool {
    exists|j: int|
        0 <= j < procs.len() && !path_ignored(#[trigger] procs[j], host)
            && steam_library::path_match(games, procs[j]) == Some(id)
}

proof fn lemma_found_longer(
    procs: Seq<identity::ProcessView>,
    games: Map<u32, SteamGame>,
    host: HostOs,
    id: identity::IdentityView,
)
    requires
        procs.len() > 0,
        found_by_path(procs.drop_last(), games, host, id),
    ensures
        found_by_path(procs, games, host, id),
{
    let t = procs.drop_last();
    let j = choose|j: int|
        0 <= j < t.len() && !path_ignored(#[trigger] t[j], host) && steam_library::path_match(
            games,
            t[j],
        ) == Some(id);
    assert(procs[j] == t[j]);
}

proof fn lemma_paths_added(
    list: Seq<identity::IdentityView>,
    procs: Seq<identity::ProcessView>,
    games: Map<u32, SteamGame>,
    host: HostOs,
)
    ensures
        list.len() <= with_paths(list, procs, games, host).len(),
        with_paths(list, procs, games, host).take(list.len() as int) == list,
        forall|k: int|
            list.len() <= k < with_paths(list, procs, games, host).len() ==> found_by_path(
                procs,
                games,
                host,
                #[trigger] with_paths(list, procs, games, host)[k],
            ),
        forall|j: int|
            0 <= j < procs.len() && !path_ignored(#[trigger] procs[j], host)
                && steam_library::path_match(games, procs[j]) is Some ==> identity::has_id(
                with_paths(list, procs, games, host),
                steam_library::path_match(games, procs[j])->0.id,
            ),
    decreases procs.len(),
{
    let r = with_paths(list, procs, games, host);
    if procs.len() == 0 {
        assert(r.take(list.len() as int) == list);
    } else {
        let t = procs.drop_last();
        let n = t.len() as int;
        let before = with_paths(list, t, games, host);
        lemma_paths_added(list, t, games, host);
        if let Some(id) = steam_library::path_match(games, procs[n]) {
            identity::lemma_with_unique(before, id);
        }
        assert(forall|k: int| 0 <= k < before.len() ==> #[trigger] r[k] == before[k]);
        assert(r.take(list.len() as int) == before.take(list.len() as int));
        assert forall|k: int| list.len() <= k < r.len() implies found_by_path(
            procs,
            games,
            host,
            #[trigger] r[k],
        ) by {
            if k < before.len() {
                assert(found_by_path(t, games, host, before[k]));
                lemma_found_longer(procs, games, host, before[k]);
            } else {
                assert(steam_library::path_match(games, procs[n]) == Some(r[k]));
            }
        }
        assert forall|j: int|
            0 <= j < procs.len() && !path_ignored(#[trigger] procs[j], host)
                && steam_library::path_match(games, procs[j]) is Some implies identity::has_id(
            r,
            steam_library::path_match(games, procs[j])->0.id,
        ) by {
            if j < n {
                assert(t[j] == procs[j]);
                let x = steam_library::path_match(games, procs[j])->0.id;
                assert(identity::has_id(before, x));
                let k = choose|k: int| 0 <= k < before.len() && (#[trigger] before[k]).id == x;
                assert(r[k].id == x);
            }
        }
    }
}

/// How the Steam games among the processes are found: those that the markers name
/// come first. Each that follows is a game of low confidence in whose directory a
/// process lies that is neither denied nor a helper or wrapper, and every such
/// process has its game in the list.
pub proof fn law_steam_games_by_path(
    procs: Seq<identity::ProcessView>,
    games: Map<u32, SteamGame>,
    host: HostOs,
)
    requires
        host == HostOs::Windows || host == HostOs::Linux,
    ensures
        ({
            let first = steam_reaper::launched_games(procs, games);
            let all = steam_games(procs, games, host);
            &&& first.len() <= all.len()
            &&& all.take(first.len() as int) == first
            &&& forall|k: int|
                first.len() <= k < all.len() ==> {
                    &&& found_by_path(procs, games, host, #[trigger] all[k])
                    &&& all[k].confidence == Confidence::Low
                    &&& all[k].source == "steam-path"@
                }
            &&& forall|j: int|
                0 <= j < procs.len() && !path_ignored(#[trigger] procs[j], host)
                    && steam_library::path_match(games, procs[j]) is Some ==> identity::has_id(
                    all,
                    steam_library::path_match(games, procs[j])->0.id,
                )
        }),
{
    let first = steam_reaper::launched_games(procs, games);
    lemma_paths_added(first, procs, games, host);
    let all = steam_games(procs, games, host);
    assert forall|k: int| first.len() <= k < all.len() implies {
        &&& found_by_path(procs, games, host, #[trigger] all[k])
        &&& all[k].confidence == Confidence::Low
        &&& all[k].source == "steam-path"@
    } by {
        assert(found_by_path(procs, games, host, all[k]));
    }
}

/// Without a command line no Steam game is known for sure.
pub proof fn law_high_needs_a_cmdline(
    procs: Seq<identity::ProcessView>,
    games: Map<u32, SteamGame>,
    host: HostOs,
    k: int,
)
    requires
        forall|j: int| 0 <= j < procs.len() ==> (#[trigger] procs[j]).cmdline is None,
        0 <= k < steam_games(procs, games, host).len(),
    ensures
        steam_games(procs, games, host)[k].confidence == Confidence::Low,
{
    steam_reaper::lemma_nothing_launched(procs, games);
    law_steam_games_by_path(procs, games, host);
}

/// A denied process, wherever it stands, changes nothing of the Steam games.
pub proof fn law_denied_is_no_steam_game(
    procs: Seq<identity::ProcessView>,
    games: Map<u32, SteamGame>,
    host: HostOs,
    d: identity::ProcessView,
    at: int,
)
    requires
        deny::denied(d.name),
        0 <= at <= procs.len(),
    ensures
        steam_games(procs.insert(at, d), games, host) == steam_games(procs, games, host),
{
    steam_reaper::lemma_denied_launches_nothing(procs, games, d, at);
    lemma_denied_adds_no_path(
        steam_reaper::launched_games(procs, games),
        procs,
        games,
        host,
        d,
        at,
    );
}

proof fn lemma_denied_adds_no_path(
    list: Seq<identity::IdentityView>,
    procs: Seq<identity::ProcessView>,
    games: Map<u32, SteamGame>,
    host: HostOs,
    d: identity::ProcessView,
    at: int,
)
    requires
        deny::denied(d.name),
        0 <= at <= procs.len(),
    ensures
        with_paths(list, procs.insert(at, d), games, host) == with_paths(list, procs, games, host),
    decreases procs.len(),
{
    let more = procs.insert(at, d);
    if at == procs.len() {
        assert(more.drop_last() == procs);
    } else {
        assert(more.drop_last() == procs.drop_last().insert(at, d));
        assert(more.last() == procs.last());
        lemma_denied_adds_no_path(list, procs.drop_last(), games, host, d, at);
    }
}

} // verus!
