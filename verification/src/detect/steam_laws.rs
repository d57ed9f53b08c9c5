//! What holds of the Steam games among the processes, of the Steam libraries and
//! of what is read of a command line.

use vstd::prelude::*;

use super::platform::linux;
use super::platform::windows;
use super::process;
use super::steam_reaper;
use crate::identity;
use crate::identity::catalog_laws;
use crate::identity::deny;
use crate::identity::fingerprint;
use crate::identity::steam_library;
use crate::identity::steam_library::SteamGame;
use crate::identity::Confidence;
use crate::number;
use crate::split;
use crate::text;
use crate::text::CharSet;
use crate::text_laws;

verus! {

// ---------------------------------------------------------------------------
// Markers in command lines
// ---------------------------------------------------------------------------

/// At `i` stands the marker of Steam, and the digits behind it are this id.
pub open spec fn marks(cmd: Seq<char>, i: int, id: u32) -> bool {
    &&& text::occurs_at(cmd, "SteamLaunch AppId="@, i)
    &&& i + 18 <= cmd.len()
    &&& number::parse_u32(cmd.skip(i + 18).take(number::digit_run(cmd.skip(i + 18)) as int))
        == Some(id)
}

proof fn lemma_marker_len()
    ensures
        "SteamLaunch AppId="@.len() == 18,
{
    reveal_strlit("SteamLaunch AppId=");
}

proof fn lemma_marks_skip(cmd: Seq<char>, k: int, i: int, id: u32)
    requires
        0 <= k <= cmd.len(),
        marks(cmd.skip(k), i, id),
    ensures
        marks(cmd, i + k, id),
{
    lemma_marker_len();
    let t = cmd.skip(k);
    assert(t.subrange(i, i + 18) == cmd.subrange(i + k, i + k + 18));
    assert(t.skip(i + 18) == cmd.skip(i + k + 18));
}

proof fn lemma_added(s: Seq<char>, ids: Seq<u32>, id: u32)
    ensures
        steam_library::ids_added(s, ids).contains(id) <==> ids.contains(id)
            || steam_library::ids_added(s, Seq::empty()).contains(id),
    decreases s.len(),
{
    let marker = steam_library::launch_marker();
    text::lemma_find_from(s, marker, 0);
    lemma_marker_len();
    match text::find(s, marker) {
        None => {},
        Some(i) => {
            let after = s.skip(i + marker.len());
            number::lemma_digit_run(after);
            let now = |list: Seq<u32>|
                match number::parse_u32(after.take(number::digit_run(after) as int)) {
                    Some(n) => if list.contains(n) {
                        list
                    } else {
                        list.push(n)
                    },
                    None => list,
                };
            let none = Seq::<u32>::empty();
            if let Some(n) = number::parse_u32(after.take(number::digit_run(after) as int)) {
                assert(none.push(n)[0] == n);
                assert(ids.push(n)[ids.len() as int] == n);
                assert(forall|x: u32| ids.contains(x) ==> ids.push(n).contains(x)) by {
                    assert forall|x: u32| ids.contains(x) implies ids.push(n).contains(x) by {
                        let k = choose|k: int| 0 <= k < ids.len() && ids[k] == x;
                        assert(ids.push(n)[k] == x);
                    }
                }
            }
            if after.len() > 0 {
                lemma_added(steam_library::after_id(after), now(ids), id);
                lemma_added(steam_library::after_id(after), now(none), id);
            }
        },
    }
}

/// Every app id that is read from a command line stands behind a marker of Steam.
pub proof fn law_read_ids_are_marked(cmd: Seq<char>, id: u32)
    requires
        steam_library::reaper_ids(cmd).contains(id),
    ensures
        exists|i: int| #[trigger] marks(cmd, i, id),
    decreases cmd.len(),
{
    let marker = steam_library::launch_marker();
    let none = Seq::<u32>::empty();
    text::lemma_find_from(cmd, marker, 0);
    lemma_marker_len();
    match text::find(cmd, marker) {
        None => {},
        Some(i) => {
            let after = cmd.skip(i + marker.len());
            number::lemma_digit_run(after);
            let read = number::parse_u32(after.take(number::digit_run(after) as int));
            if read == Some(id) {
                assert(marks(cmd, i, id));
            } else {
                let now = match read {
                    Some(n) => none.push(n),
                    None => none,
                };
                assert(!now.contains(id));
                if after.len() > 0 {
                    let rest = steam_library::after_id(after);
                    lemma_added(rest, now, id);
                    law_read_ids_are_marked(rest, id);
                    let j = choose|j: int| #[trigger] marks(rest, j, id);
                    let n = number::digit_run(after) as int;
                    let k = i + marker.len() + (if n > 0 {
                        n
                    } else {
                        1
                    });
                    assert(cmd.skip(k) == rest);
                    lemma_marks_skip(cmd, k, j, id);
                }
            }
        },
    }
}

/// The app id behind the first marker of a command line is the first that is read,
/// and all that are read from what follows its digits are read too.
pub proof fn law_marked_ids_are_read(before: Seq<char>, id: u32, rest: Seq<char>, other: u32)
    requires
        text::find(
            before + "SteamLaunch AppId="@ + number::decimal(id as nat) + rest,
            "SteamLaunch AppId="@,
        ) == Some(before.len() as int),
        rest.len() > 0 ==> !('0' <= rest[0] <= '9'),
    ensures
        ({
            let ids = steam_library::reaper_ids(
                before + "SteamLaunch AppId="@ + number::decimal(id as nat) + rest,
            );
            &&& ids.contains(id)
            &&& steam_library::reaper_ids(rest).contains(other) ==> ids.contains(other)
        }),
{
    let marker = "SteamLaunch AppId="@;
    let digits = number::decimal(id as nat);
    let cmd = before + marker + digits + rest;
    let none = Seq::<u32>::empty();
    lemma_marker_len();
    number::lemma_decimal_reads_back(id as nat);
    let after = cmd.skip((before.len() + marker.len()) as int);
    assert(after == digits + rest);
    steam_library::lemma_run_at_least(after, digits.len() as int);
    assert(after.skip(digits.len() as int) == rest);
    assert(number::digit_run(after) == digits.len());
    assert(after.take(digits.len() as int) == digits);
    text_laws::law_number_reads_back(id);
    assert(none.push(id)[0] == id);
    assert(none.push(id).contains(id));
    lemma_added(rest, none.push(id), id);
    lemma_added(rest, none.push(id), other);
    assert(steam_library::after_id(after) == rest);
}

/// The app ids of running games are those that a command line has, behind a marker
/// and not as the beginning of a longer number; whether the process is denied makes
/// no difference.
pub proof fn law_running_ids(procs: Seq<identity::ProcessView>, id: u32)
    ensures
        steam_reaper::running_ids(procs).contains(id) <==> exists|j: int|
            0 <= j < procs.len() && (#[trigger] procs[j]).cmdline is Some
                && steam_library::reaper_ids(procs[j].cmdline->0).contains(id)
                && steam_library::has_app_id(procs[j].cmdline->0, id),
        steam_reaper::running_ids(procs).no_duplicates(),
    decreases procs.len(),
{
    if procs.len() > 0 {
        let front = procs.drop_last();
        let last = procs.len() - 1;
        law_running_ids(front, id);
        let before = steam_reaper::running_ids(front);
        if let Some(cmd) = procs.last().cmdline {
            lemma_with_running(before, steam_library::reaper_ids(cmd), cmd, id);
        }
        if before.contains(id) {
            let j = choose|j: int|
                0 <= j < front.len() && (#[trigger] front[j]).cmdline is Some
                    && steam_library::reaper_ids(front[j].cmdline->0).contains(id)
                    && steam_library::has_app_id(front[j].cmdline->0, id);
            assert(procs[j] == front[j]);
        }
        if exists|j: int|
            0 <= j < procs.len() && (#[trigger] procs[j]).cmdline is Some
                && steam_library::reaper_ids(procs[j].cmdline->0).contains(id)
                && steam_library::has_app_id(procs[j].cmdline->0, id) {
            let j = choose|j: int|
                0 <= j < procs.len() && (#[trigger] procs[j]).cmdline is Some
                    && steam_library::reaper_ids(procs[j].cmdline->0).contains(id)
                    && steam_library::has_app_id(procs[j].cmdline->0, id);
            if j < last {
                assert(front[j] == procs[j]);
            }
        }
        assert(procs[last] == procs.last());
    }
}

proof fn lemma_with_running(ids: Seq<u32>, more: Seq<u32>, cmd: Seq<char>, id: u32)
    ensures
        steam_reaper::with_running(ids, more, cmd).contains(id) <==> ids.contains(id) || (
        more.contains(id) && steam_library::has_app_id(cmd, id)),
        ids.no_duplicates() ==> steam_reaper::with_running(ids, more, cmd).no_duplicates(),
    decreases more.len(),
{
    if more.len() > 0 {
        let front = more.drop_last();
        lemma_with_running(ids, front, cmd, id);
        lemma_with_running(ids, front, cmd, more.last());
        let before = steam_reaper::with_running(ids, front, cmd);
        assert(more.contains(id) <==> front.contains(id) || more.last() == id) by {
            if more.contains(id) {
                let k = choose|k: int| 0 <= k < more.len() && more[k] == id;
                if k < front.len() {
                    assert(front[k] == id);
                }
            }
            if front.contains(id) {
                let k = choose|k: int| 0 <= k < front.len() && front[k] == id;
                assert(more[k] == id);
            }
            assert(more[more.len() - 1] == more.last());
        }
        let pushed = before.push(more.last());
        assert(pushed.contains(id) <==> before.contains(id) || more.last() == id) by {
            if pushed.contains(id) {
                let k = choose|k: int| 0 <= k < pushed.len() && pushed[k] == id;
                if k < before.len() {
                    assert(before[k] == id);
                }
            }
            if before.contains(id) {
                let k = choose|k: int| 0 <= k < before.len() && before[k] == id;
                assert(pushed[k] == id);
            }
            assert(pushed[before.len() as int] == more.last());
        }
    }
}

// ---------------------------------------------------------------------------
// Games by their markers
// ---------------------------------------------------------------------------

/// The identity is the sure one of the Steam game with this id, run by this process.
pub open spec fn tells_app(
    m: identity::IdentityView,
    games: Map<u32, SteamGame>,
    id: u32,
    name: Seq<char>,
) -> bool {
    &&& m.id == "steam:"@ + number::decimal(id as nat)
    &&& m.steam_app_id == Some(id)
    &&& m.title == (if games.contains_key(id) {
        games[id].title@
    } else {
        "Steam App "@ + number::decimal(id as nat)
    })
    &&& m.exe == Some(name)
    &&& m.confidence == Confidence::High
    &&& m.source == "steam"@
    &&& m.fingerprint is None
}

/// The process is not denied, and its command line has this app id.
pub open spec fn launches_app(p: identity::ProcessView, id: u32) -> bool {
    &&& !deny::denied(p.name)
    &&& p.cmdline is Some
    &&& steam_library::reaper_ids(p.cmdline->0).contains(id)
    &&& steam_library::has_app_id(p.cmdline->0, id)
}

/// Some process launches the game that the identity tells.
pub open spec fn is_launched(
    procs: Seq<identity::ProcessView>,
    games: Map<u32, SteamGame>,
    m: identity::IdentityView,
) -> bool {
    exists|j: int, id: u32|
        0 <= j < procs.len() && #[trigger] launches_app(procs[j], id) && tells_app(
            m,
            games,
            id,
            procs[j].name,
        )
}

/// The identity tells one of the games that the command line has.
spec fn tells_one(
    m: identity::IdentityView,
    ids: Seq<u32>,
    name: Seq<char>,
    cmd: Seq<char>,
    games: Map<u32, SteamGame>,
) -> bool {
    exists|id: u32| #[trigger]
        ids.contains(id) && steam_library::has_app_id(cmd, id) && tells_app(m, games, id, name)
}

proof fn lemma_launched_one(
    list: Seq<identity::IdentityView>,
    ids: Seq<u32>,
    name: Seq<char>,
    cmd: Seq<char>,
    games: Map<u32, SteamGame>,
)
    ensures
        ({
            let r = steam_reaper::with_launched(list, ids, name, cmd, games);
            &&& list.len() <= r.len()
            &&& r.take(list.len() as int) == list
            &&& forall|k: int|
                list.len() <= k < r.len() ==> tells_one(#[trigger] r[k], ids, name, cmd, games)
            &&& forall|id: u32| #[trigger]
                ids.contains(id) && steam_library::has_app_id(cmd, id) ==> identity::has_id(
                    r,
                    "steam:"@ + number::decimal(id as nat),
                )
        }),
    decreases ids.len(),
{
    if ids.len() > 0 {
        let front = ids.drop_last();
        let last = ids.last();
        lemma_launched_one(list, front, name, cmd, games);
        let before = steam_reaper::with_launched(list, front, name, cmd, games);
        let r = steam_reaper::with_launched(list, ids, name, cmd, games);
        let new = steam_reaper::launched(games, last, name);
        identity::lemma_with_unique(before, new);
        assert(ids[ids.len() - 1] == last);
        assert(forall|id: u32| front.contains(id) ==> ids.contains(id)) by {
            assert forall|id: u32| front.contains(id) implies ids.contains(id) by {
                let k = choose|k: int| 0 <= k < front.len() && front[k] == id;
                assert(ids[k] == id);
            }
        }
        assert forall|k: int| list.len() <= k < r.len() implies tells_one(
            #[trigger] r[k],
            ids,
            name,
            cmd,
            games,
        ) by {
            if k < before.len() {
                assert(r[k] == before[k]);
                let id = choose|id: u32| #[trigger]
                    front.contains(id) && steam_library::has_app_id(cmd, id) && tells_app(
                        before[k],
                        games,
                        id,
                        name,
                    );
                assert(ids.contains(id));
            } else {
                assert(r[k] == new);
                assert(ids.contains(last));
            }
        }
        assert forall|id: u32| #[trigger]
            ids.contains(id) && steam_library::has_app_id(cmd, id) implies identity::has_id(
            r,
            "steam:"@ + number::decimal(id as nat),
        ) by {
            let at = choose|k: int| 0 <= k < ids.len() && ids[k] == id;
            if at < front.len() {
                assert(front[at] == id);
                assert(front.contains(id));
                let k = choose|k: int|
                    0 <= k < before.len() && (#[trigger] before[k]).id == "steam:"@
                        + number::decimal(id as nat);
                assert(r[k] == before[k]);
            }
        }
        assert(r.take(list.len() as int) == before.take(list.len() as int));
    } else {
        assert(list.take(list.len() as int) == list);
    }
}

/// A game that is known for sure was launched by a process that is not denied and
/// whose command line has its app id; and every game that such a process launches is
/// known.
pub proof fn law_launched_games(procs: Seq<identity::ProcessView>, games: Map<u32, SteamGame>)
    ensures
        forall|k: int|
            0 <= k < steam_reaper::launched_games(procs, games).len() ==> is_launched(
                procs,
                games,
                #[trigger] steam_reaper::launched_games(procs, games)[k],
            ),
        forall|j: int, id: u32|
            0 <= j < procs.len() && #[trigger] launches_app(procs[j], id) ==> identity::has_id(
                steam_reaper::launched_games(procs, games),
                "steam:"@ + number::decimal(id as nat),
            ),
    decreases procs.len(),
{
    if procs.len() > 0 {
        let front = procs.drop_last();
        let p = procs.last();
        let last = procs.len() - 1;
        law_launched_games(front, games);
        let before = steam_reaper::launched_games(front, games);
        let all = steam_reaper::launched_games(procs, games);
        if p.cmdline is Some && !deny::denied(p.name) {
            lemma_launched_one(
                before,
                steam_library::reaper_ids(p.cmdline->0),
                p.name,
                p.cmdline->0,
                games,
            );
        } else {
            assert(all.take(before.len() as int) == before);
        }
        assert(procs[last] == p);
        assert forall|k: int| 0 <= k < all.len() implies is_launched(
            procs,
            games,
            #[trigger] all[k],
        ) by {
            if k < before.len() {
                assert(all.take(before.len() as int)[k] == before[k]);
                let (j, id) = choose|j: int, id: u32|
                    0 <= j < front.len() && #[trigger] launches_app(front[j], id) && tells_app(
                        before[k],
                        games,
                        id,
                        front[j].name,
                    );
                assert(procs[j] == front[j]);
                assert(launches_app(procs[j], id));
            } else {
                let id = choose|id: u32| #[trigger]
                    steam_library::reaper_ids(p.cmdline->0).contains(id)
                        && steam_library::has_app_id(p.cmdline->0, id) && tells_app(
                        all[k],
                        games,
                        id,
                        p.name,
                    );
                assert(launches_app(procs[last], id));
            }
        }
        assert forall|j: int, id: u32|
            0 <= j < procs.len() && #[trigger] launches_app(procs[j], id) implies identity::has_id(
            all,
            "steam:"@ + number::decimal(id as nat),
        ) by {
            if j < last {
                assert(front[j] == procs[j]);
                assert(launches_app(front[j], id));
                let k = choose|k: int|
                    0 <= k < before.len() && (#[trigger] before[k]).id == "steam:"@
                        + number::decimal(id as nat);
                assert(all.take(before.len() as int)[k] == before[k]);
                assert(all[k].id == "steam:"@ + number::decimal(id as nat));
            }
        }
    }
}

// ---------------------------------------------------------------------------
// Games by their paths
// ---------------------------------------------------------------------------

/// A path below the install directory, behind a slash of either kind, lies in it, in
/// whatever case its letters are written.
pub proof fn law_below_the_install(
    install: Seq<char>,
    exe: Seq<char>,
    slash: char,
    rest: Seq<char>,
)
    requires
        install.len() > 0,
        slash == '/' || slash == '\\',
        install.last() != '/' && install.last() != '\\',
        text::same_letters(exe, install.push(slash) + rest),
    ensures
        steam_library::path_under(exe, install),
{
    reveal_strlit("/");
    let path = text::lower(text::swap_char(exe, '\\', '/'));
    let low = text::lower(text::swap_char(install, '\\', '/'));
    let dir = text::trim_end(low, CharSet::Slash);
    let whole = install.push(slash) + rest;
    assert(low.last() != '/');
    assert(dir == low);
    assert(exe.len() == whole.len()) by {
        assert(text::lower(exe).len() == text::lower(whole).len());
    }
    assert forall|i: int| 0 <= i < exe.len() implies text::lower_char(exe[i])
        == text::lower_char(whole[i]) by {
        assert(text::lower(exe)[i] == text::lower(whole)[i]);
    }
    assert forall|i: int| 0 <= i < dir.len() implies path[i] == dir[i] by {
        assert(whole[i] == install[i]);
        assert(text::lower_char(exe[i]) == text::lower_char(install[i]));
    }
    assert(text::lower_char(exe[install.len() as int]) == text::lower_char(
        whole[install.len() as int],
    ));
    assert(whole[install.len() as int] == slash);
    assert(path.subrange(0, (dir.len() + 1) as int) == dir + "/"@);
}

/// Nothing lies in a directory without a name; the case of letters in a path and the
/// kind of its slashes make no difference.
pub proof fn law_path_is_normal(exe: Seq<char>, other: Seq<char>, install: Seq<char>)
    requires
        text::same_letters(
            text::swap_char(exe, '\\', '/'),
            text::swap_char(other, '\\', '/'),
        ),
    ensures
        steam_library::path_under(exe, install) == steam_library::path_under(other, install),
        install.len() == 0 ==> !steam_library::path_under(exe, install),
{
}

/// The game is installed where the executable lies.
pub open spec fn lies_in_game(games: Map<u32, SteamGame>, id: u32, exe: Seq<char>) -> bool {
    games.contains_key(id) && steam_library::path_under(exe, games[id].install_path@)
}

/// A path that lies in the directory of one game alone gives its identity, with low
/// confidence; one that lies in none, or in those of two games, gives none.
pub proof fn law_path_tells_one_game(
    games: Map<u32, SteamGame>,
    p: identity::ProcessView,
    exe: Seq<char>,
    id: u32,
    other: u32,
)
    requires
        p.exe_path == Some(exe),
        games.contains_key(id) ==> games[id].app_id == id,
    ensures
        lies_in_game(games, id, exe) && (forall|k: u32| #[trigger]
            lies_in_game(games, k, exe) ==> k == id) ==> {
            let m = steam_library::path_match(games, p);
            &&& m is Some
            &&& m->0.id == "steam:"@ + number::decimal(id as nat)
            &&& m->0.title == games[id].title@
            &&& m->0.steam_app_id == Some(id)
            &&& m->0.exe == Some(p.name)
            &&& m->0.confidence == Confidence::Low
            &&& m->0.source == "steam-path"@
            &&& m->0.fingerprint is None
        },
        id != other && lies_in_game(games, id, exe) && lies_in_game(games, other, exe)
            ==> steam_library::path_match(games, p) is None,
        (forall|k: u32| !#[trigger] lies_in_game(games, k, exe)) ==> steam_library::path_match(
            games,
            p,
        ) is None,
{
    assert(forall|k: u32| #[trigger]
        steam_library::installed_at(games, k, exe) == lies_in_game(games, k, exe));
    if lies_in_game(games, id, exe) && (forall|k: u32| #[trigger]
        lies_in_game(games, k, exe) ==> k == id) {
        assert(steam_library::only_install(games, id, exe));
        let k = choose|k: u32| steam_library::only_install(games, k, exe);
        assert(steam_library::installed_at(games, k, exe));
        assert(lies_in_game(games, k, exe));
    }
    if exists|k: u32| steam_library::only_install(games, k, exe) {
        let k = choose|k: u32| steam_library::only_install(games, k, exe);
        assert(steam_library::installed_at(games, k, exe));
        assert(lies_in_game(games, k, exe));
        if lies_in_game(games, id, exe) && lies_in_game(games, other, exe) {
            assert(steam_library::installed_at(games, id, exe));
            assert(steam_library::installed_at(games, other, exe));
        }
    }
}

/// Without a path there is no game by path.
pub proof fn law_no_path_no_game(games: Map<u32, SteamGame>, p: identity::ProcessView)
    requires
        p.exe_path is None,
    ensures
        steam_library::path_match(games, p) is None,
{
}

/// The wrappers of Proton and of Steam's runtime are passed over on Linux, with or
/// without `.exe`, in whatever case; nothing else is.
pub proof fn law_wrappers(name: Seq<char>, bare: Seq<char>, copies: nat)
    requires
        text::lower(name) == catalog_laws::with_exe(bare, copies),
        !text::ends_with(bare, ".exe"@),
    ensures
        linux::wraps(name) <==> {
            ||| bare == "reaper"@
            ||| bare == "wineserver"@
            ||| bare == "wine64-preloader"@
            ||| bare == "wine64"@
            ||| bare == "wine"@
            ||| bare == "pv-adverb"@
            ||| text::starts_with(bare, "proton"@)
            ||| text::starts_with(bare, "pressure-vessel"@)
            ||| text::starts_with(bare, "steam-runtime"@)
        },
{
    catalog_laws::law_stem(name, bare, copies);
    reveal_strlit("proton");
    reveal_strlit("pressure-vessel");
    reveal_strlit("pressure-vessel-wrap");
    assert("proton"@.subrange(0, "proton"@.len() as int) == "proton"@);
    assert("pressure-vessel-wrap"@.subrange(0, "pressure-vessel"@.len() as int)
        == "pressure-vessel"@);
}

/// The helpers that come with games are passed over on Windows: by their names, or by
/// the directories that they lie in, in whatever case and with whatever slashes.
pub proof fn law_helpers(p: identity::ProcessView, bare: Seq<char>, copies: nat)
    requires
        text::lower(p.name) == catalog_laws::with_exe(bare, copies),
        !text::ends_with(bare, ".exe"@),
    ensures
        windows::sidecar(p) <==> {
            ||| bare == "crashreportclient"@
            ||| text::starts_with(bare, "eaanticheat"@)
            ||| text::starts_with(bare, "easyanticheat"@)
            ||| text::contains(bare, "eosoverlay"@)
            ||| p.exe_path is Some && lies_with_helpers(
                text::lower(text::swap_char(p.exe_path->0, '\\', '/')),
            )
        },
{
    catalog_laws::law_stem(p.name, bare, copies);
    let none = text::lower(text::swap_char(Seq::empty(), '\\', '/'));
    reveal_strlit("/easyanticheat/");
    reveal_strlit("/battleye/");
    reveal_strlit("/eossdk/");
    reveal_strlit("/eosoverlay");
    assert(none.len() == 0);
    assert(!windows::helper_path(none));
}

/// The path leads through the directory of a helper.
pub open spec fn lies_with_helpers(path: Seq<char>) -> bool {
    ||| text::contains(path, "/easyanticheat/"@)
    ||| text::contains(path, "/battleye/"@)
    ||| text::contains(path, "/eossdk/"@)
    ||| text::contains(path, "/eosoverlay"@)
}

/// The command line of a process is recorded where its name is that of Steam's launch
/// wrapper, and it has arguments.
pub proof fn law_recorded_cmdline(
    name: Seq<char>,
    bare: Seq<char>,
    copies: nat,
    args: Seq<Seq<char>>,
)
    requires
        text::lower(name) == catalog_laws::with_exe(bare, copies),
        !text::ends_with(bare, ".exe"@),
    ensures
        process::launches(name) <==> bare == "reaper"@ || bare == "steamlaunch"@
            || text::starts_with(bare, "steam-launch"@),
        process::recorded_cmdline(name, args) is Some <==> args.len() > 0 && (bare == "reaper"@
            || bare == "steamlaunch"@ || text::starts_with(bare, "steam-launch"@)),
        process::recorded_cmdline(name, args) is Some ==> process::recorded_cmdline(name, args)->0
            == process::spaced(args),
{
    catalog_laws::law_stem(name, bare, copies);
    reveal_strlit("steam-launch");
    reveal_strlit("steam-launch-wrapper");
    assert("steam-launch-wrapper"@.subrange(0, "steam-launch"@.len() as int) == "steam-launch"@);
}

/// Arguments are joined by one space between each two: joining two lists is joining
/// each and putting a space between them; one argument alone stays as it is.
pub proof fn law_spaced(a: Seq<Seq<char>>, b: Seq<Seq<char>>, one: Seq<char>)
    requires
        a.len() > 0,
        b.len() > 0,
    ensures
        process::spaced(a + b) == process::spaced(a) + seq![' '] + process::spaced(b),
        process::spaced(seq![one]) == one,
    decreases b.len(),
{
    reveal_strlit(" ");
    assert(" "@ == seq![' ']);
    assert((a + b).drop_last() == a + b.drop_last());
    assert((a + b).last() == b.last());
    if b.len() == 1 {
        assert(a + b.drop_last() == a);
        assert(b.last() == b[0]);
    } else {
        law_spaced(a, b.drop_last(), one);
        assert(process::spaced(a) + seq![' '] + process::spaced(b.drop_last()) + seq![' ']
            + b.last() == process::spaced(a) + seq![' '] + (process::spaced(b.drop_last()) + seq![
            ' ',
        ] + b.last()));
    }
}

// ---------------------------------------------------------------------------
// Library files
// ---------------------------------------------------------------------------

/// A value is read from a line that has the key between quotes, then white space, and
/// the value between quotes, whatever white space stands around it. The value is not
/// empty and has no quote and no white space at its ends.
pub proof fn law_value_on_line(
    indent: Seq<char>,
    needle: Seq<char>,
    space: Seq<char>,
    value: Seq<char>,
    end: Seq<char>,
)
    requires
        text_laws::all_in(indent, CharSet::White),
        text_laws::all_in(space, CharSet::White),
        text_laws::all_in(end, CharSet::White),
        needle.len() > 0,
        !CharSet::White.has(needle[0]),
        value.len() > 0,
        value[0] != '"',
        value.last() != '"',
    ensures
        steam_library::value_on_line(
            indent + (needle + space + (seq!['"'] + value + seq!['"'])) + end,
            needle,
        ) == Some(value),
{
    let quotes = seq!['"'];
    let inner = quotes + value + quotes;
    let kept = needle + space + inner;
    text_laws::law_trim(indent, kept, end, CharSet::White);
    assert(kept.subrange(0, needle.len() as int) == needle);
    let rest = kept.skip(needle.len() as int);
    assert(rest == space + inner + Seq::<char>::empty());
    text_laws::law_trim(space, inner, Seq::empty(), CharSet::White);
    text_laws::law_trim(quotes, value, quotes, CharSet::Quote);
}

/// A line that does not begin with the key has no value.
pub proof fn law_other_lines(line: Seq<char>, needle: Seq<char>)
    requires
        !text::starts_with(text::trim(line, CharSet::White), needle),
    ensures
        steam_library::value_on_line(line, needle) is None,
{
}

/// The value of a key is the first on the lines that is not empty.
pub proof fn law_first_value(lines: Seq<Seq<char>>, needle: Seq<char>, k: int)
    requires
        0 <= k <= lines.len(),
        forall|j: int|
            0 <= j < k ==> steam_library::value_on_line(#[trigger] lines[j], needle) is None
                || steam_library::value_on_line(lines[j], needle)->0.len() == 0,
        k < lines.len() ==> steam_library::value_on_line(lines[k], needle) is Some
            && steam_library::value_on_line(lines[k], needle)->0.len() > 0,
    ensures
        steam_library::first_value(lines, needle) == (if k < lines.len() {
            steam_library::value_on_line(lines[k], needle)
        } else {
            None
        }),
    decreases k,
{
    if k > 0 {
        let rest = lines.skip(1);
        assert forall|j: int| 0 <= j < k - 1 implies steam_library::value_on_line(
            #[trigger] rest[j],
            needle,
        ) is None || steam_library::value_on_line(rest[j], needle)->0.len() == 0 by {
            assert(rest[j] == lines[j + 1]);
        }
        law_first_value(rest, needle, k - 1);
        assert(lines[0] == lines[0]);
    }
}

/// A manifest tells a game where it has an app id that is a number and an install
/// directory; the title is the name that it has, or else is made from the app id.
pub proof fn law_manifest(raw: Seq<char>)
    ensures
        ({
            let lines = split::lines(raw);
            let id = steam_library::first_value(lines, "\"appid\""@);
            let dir = steam_library::first_value(lines, "\"installdir\""@);
            let title = steam_library::first_value(lines, "\"name\""@);
            let m = steam_library::manifest(raw);
            &&& m is Some <==> id is Some && dir is Some && number::parse_u32(id->0) is Some
            &&& m is Some ==> {
                &&& Some(m->0.app_id) == number::parse_u32(id->0)
                &&& m->0.install_dir == dir->0
                &&& title is Some ==> m->0.title == title->0
                &&& title is None ==> m->0.title == "App "@ + number::decimal(
                    m->0.app_id as nat,
                )
            }
        }),
{
    reveal_strlit("\"appid\"");
    reveal_strlit("\"installdir\"");
    reveal_strlit("\"name\"");
    reveal_strlit("appid");
    reveal_strlit("installdir");
    reveal_strlit("name");
    reveal_strlit("\"");
    assert(steam_library::quoted("appid"@) == "\"appid\""@);
    assert(steam_library::quoted("installdir"@) == "\"installdir\""@);
    assert(steam_library::quoted("name"@) == "\"name\""@);
}

/// The library directories are the values of `path`, in the order of their lines, with
/// each two backslashes made one; a line without such a value adds none.
pub proof fn law_library_paths(lines: Seq<Seq<char>>, line: Seq<char>)
    ensures
        steam_library::library_paths(Seq::empty()).len() == 0,
        steam_library::library_paths(lines.push(line)) == (match steam_library::value_on_line(
            line,
            "\"path\""@,
        ) {
            Some(v) => steam_library::library_paths(lines).push(
                text::replace(v, seq!['\\', '\\'], seq!['\\']),
            ),
            None => steam_library::library_paths(lines),
        }),
{
    reveal_strlit("\"path\"");
    reveal_strlit("path");
    reveal_strlit("\"");
    reveal_strlit("\\\\");
    reveal_strlit("\\");
    assert(steam_library::quoted("path"@) == "\"path\""@);
    assert("\\\\"@ == seq!['\\', '\\']);
    assert("\\"@ == seq!['\\']);
    assert(lines.push(line).drop_last() == lines);
}

/// The root is the first folder; every path that is there is a folder, and no other
/// path is.
pub proof fn law_folders(
    root: Seq<char>,
    paths: Seq<Seq<char>>,
    there: Seq<bool>,
    folder: Seq<char>,
)
    requires
        paths.len() == there.len(),
    ensures
        steam_library::folders(root, paths, there).len() > 0,
        steam_library::folders(root, paths, there)[0] == root,
        steam_library::folders(root, paths, there).contains(folder) <==> folder == root || exists|
            j: int,
        |
            0 <= j < paths.len() && #[trigger] paths[j] == folder && there[j],
    decreases paths.len(),
{
    let all = steam_library::folders(root, paths, there);
    if paths.len() > 0 {
        let p = paths.drop_last();
        let t = there.drop_last();
        law_folders(root, p, t, folder);
        law_folders(root, p, t, paths.last());
        let before = steam_library::folders(root, p, t);
        let last = paths.len() - 1;
        assert(paths[last] == paths.last());
        if before.contains(folder) {
            let k = choose|k: int| 0 <= k < before.len() && before[k] == folder;
            assert(all[k] == folder);
            if folder != root {
                let j = choose|j: int| 0 <= j < p.len() && #[trigger] p[j] == folder && t[j];
                assert(paths[j] == folder && there[j]);
            }
        }
        if all.contains(folder) && !before.contains(folder) {
            let k = choose|k: int| 0 <= k < all.len() && all[k] == folder;
            if k < before.len() {
                assert(before[k] == folder);
            }
            assert(folder == paths.last());
            assert(paths[last] == folder && there[last]);
        }
        if exists|j: int| 0 <= j < paths.len() && #[trigger] paths[j] == folder && there[j] {
            let j = choose|j: int| 0 <= j < paths.len() && #[trigger] paths[j] == folder && there[j];
            if j < last {
                assert(p[j] == folder && t[j]);
            } else if !before.contains(folder) {
                assert(all[before.len() as int] == folder);
            }
        }
    } else {
        assert(all[0] == root);
    }
}

/// A manifest is named by the word, a number or what else, and the ending.
pub proof fn law_manifest_name(middle: Seq<char>)
    ensures
        steam_library::manifest_name("appmanifest_"@ + middle + ".acf"@),
{
    reveal_strlit("appmanifest_");
    reveal_strlit(".acf");
    let s = "appmanifest_"@ + middle + ".acf"@;
    assert(s.subrange(0, 12) == "appmanifest_"@);
    assert(s.subrange(s.len() - 4, s.len() as int) == ".acf"@);
}

// ---------------------------------------------------------------------------
// Fingerprints
// ---------------------------------------------------------------------------

/// A fingerprint is the digest of the name, of the names of directory and file, and of
/// the flags, in this order and with bars between them; without a place the name is
/// followed by the flags.
pub proof fn law_fingerprint_digests(
    name: Seq<char>,
    dir: Seq<char>,
    file: Seq<char>,
    cmdline: Option<Seq<char>>,
)
    ensures
        ({
            let flags = fingerprint::flag_text(fingerprint::counted_words(cmdline));
            let bar = seq!['|'];
            &&& fingerprint::fingerprint(name, None, cmdline) == crate::digest::text_digest(
                text::lower(name) + flags,
            )
            &&& fingerprint::fingerprint(name, Some((dir, file)), cmdline)
                == crate::digest::text_digest(
                text::lower(name) + bar + text::lower(dir) + bar + text::lower(file) + flags,
            )
        }),
{
    reveal_strlit("|");
    let flags = fingerprint::flag_text(fingerprint::counted_words(cmdline));
    let bar = seq!['|'];
    assert("|"@ == bar);
    assert(text::lower(name) + Seq::<char>::empty() + flags == text::lower(name) + flags);
    assert(text::lower(name) + (bar + text::lower(dir) + bar + text::lower(file)) + flags
        == text::lower(name) + bar + text::lower(dir) + bar + text::lower(file) + flags);
}

/// Words that begin with a hyphen count, each behind a bar, and other words do not.
pub proof fn law_flags(words: Seq<Seq<char>>, word: Seq<char>)
    ensures
        fingerprint::flag_text(Seq::empty()).len() == 0,
        fingerprint::flag_text(words.push(word)) == (if word.len() > 0 && word[0] == '-' {
            fingerprint::flag_text(words) + seq!['|'] + word
        } else {
            fingerprint::flag_text(words)
        }),
{
    reveal_strlit("|");
    reveal_strlit("-");
    assert("|"@ == seq!['|']);
    assert(words.push(word).drop_last() == words);
    if word.len() > 0 && word[0] == '-' {
        assert(word.subrange(0, 1) == "-"@);
    } else if text::starts_with(word, "-"@) {
        assert(word.subrange(0, 1)[0] == word[0]);
    }
}

/// The first eight words of a command line count, and what follows them does not.
pub proof fn law_eight_words_count(cmdline: Seq<char>)
    ensures
        fingerprint::counted_words(None).len() == 0,
        split::words(cmdline).len() <= 8 ==> fingerprint::counted_words(Some(cmdline))
            == split::words(cmdline),
        split::words(cmdline).len() > 8 ==> fingerprint::counted_words(Some(cmdline))
            == split::words(cmdline).take(8),
{
    let w = split::words(cmdline);
    assert(w.take(w.len() as int) == w);
}

/// Where the last two components of a path have names, they are those of directory and
/// file; a file without a name goes by that of the process.
pub proof fn law_place_names(
    above: Seq<Option<Seq<char>>>,
    dir: Option<Seq<char>>,
    file: Option<Seq<char>>,
    name: Seq<char>,
)
    ensures
        ({
            let place = fingerprint::place_in(above.push(dir).push(file), name);
            &&& dir is Some ==> place.0 == dir->0
            &&& dir is None ==> place.0.len() == 0
            &&& file is Some ==> place.1 == file->0
            &&& file is None ==> place.1 == name
        }),
        fingerprint::place_in(seq![file], name).0.len() == 0,
        fingerprint::place_in(Seq::empty(), name).1 == name,
{
}

} // verus!
