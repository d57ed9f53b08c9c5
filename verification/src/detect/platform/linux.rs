//! Steam games on Linux: the wrappers of Proton are not games by their path.

use vstd::prelude::*;

use super::add_by_path;
use crate::detect::platform;
use crate::detect::steam_reaper::steamlaunch_identities;
use crate::host::HostOs;
use crate::identity;
use crate::identity::deny;
use crate::identity::steam_library::SteamLibraryIndex;
use crate::identity::{GameIdentity, ProcessSnapshot};
use crate::text;
use crate::text::{has_prefix, same, to_lower, without_suffixes};

verus! {

/// The names of Proton's and Steam's wrappers.
pub open spec fn wraps(name: Seq<char>) -> bool {
    let stem = deny::stem(name);
    ||| stem == "reaper"@
    ||| stem == "wineserver"@
    ||| stem == "wine64-preloader"@
    ||| stem == "wine64"@
    ||| stem == "wine"@
    ||| stem == "proton"@
    ||| stem == "pv-adverb"@
    ||| stem == "pressure-vessel-wrap"@
    ||| text::starts_with(stem, "pressure-vessel"@)
    ||| text::starts_with(stem, "steam-runtime"@)
    ||| text::starts_with(stem, "proton"@)
}

/// Whether a process of this name is a wrapper around a game.
pub fn is_proton_wrapper(process_name: &str) -> (r: bool)
    ensures
        r == wraps(process_name@),
{
    let low = to_lower(process_name);
    let s = without_suffixes(low.as_str(), ".exe");
    let stem = s.as_str();
    same(stem, "reaper") || same(stem, "wineserver") || same(stem, "wine64-preloader") || same(
        stem,
        "wine64",
    ) || same(stem, "wine") || same(stem, "proton") || same(stem, "pv-adverb") || same(
        stem,
        "pressure-vessel-wrap",
    ) || has_prefix(stem, "pressure-vessel") || has_prefix(stem, "steam-runtime") || has_prefix(
        stem,
        "proton",
    )
}

/// The Steam games among the processes of a Linux system.
pub fn detect_steam(processes: &[ProcessSnapshot], steam: &SteamLibraryIndex) -> (r: Vec<
    GameIdentity,
>)
    ensures
        identity::id_views(r@) == platform::steam_games(
            identity::proc_views(processes@),
            steam.games@,
            HostOs::Linux,
        ),
{
    let mut list = steamlaunch_identities(processes, steam);
    add_by_path(&mut list, processes, steam, HostOs::Linux);
    list
}

} // verus!
