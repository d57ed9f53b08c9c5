//! Steam games on Windows: helpers that lie in install directories are not games.

use vstd::prelude::*;

use super::add_by_path;
use crate::detect::platform;
use crate::detect::steam_reaper::steamlaunch_identities;
use crate::host::HostOs;
use crate::identity;
use crate::identity::catalog;
use crate::identity::deny;
use crate::identity::steam_library::SteamLibraryIndex;
use crate::identity::{GameIdentity, ProcessSnapshot};
use crate::text;
use crate::text::{
    has_prefix, has_text, same, text_or_empty, to_lower, with_char_swapped, without_suffixes,
};

verus! {

/// The names of helpers: crash reporters, anti-cheat programs and overlays.
pub open spec fn helper_name(name: Seq<char>) -> bool {
    let stem = deny::stem(name);
    ||| stem == "crashreportclient"@
    ||| text::starts_with(stem, "eaanticheat"@)
    ||| text::starts_with(stem, "easyanticheat"@)
    ||| text::contains(stem, "eosoverlay"@)
}

/// The directories of helpers.
pub open spec fn helper_path(path: Seq<char>) -> bool {
    ||| text::contains(path, "/easyanticheat/"@)
    ||| text::contains(path, "/battleye/"@)
    ||| text::contains(path, "/eossdk/"@)
    ||| text::contains(path, "/eosoverlay"@)
}

/// A helper that came with a game.
pub open spec fn sidecar(p: identity::ProcessView) -> bool {
    helper_name(p.name) || helper_path(
        text::lower(text::swap_char(catalog::text_of(p.exe_path), '\\', '/')),
    )
}

/// Whether a process is a helper that came with a game.
pub fn is_install_sidecar(proc: &ProcessSnapshot) -> (r: bool)
    ensures
        r == sidecar(proc@),
{
    let low = to_lower(proc.name.as_str());
    let s = without_suffixes(low.as_str(), ".exe");
    let stem = s.as_str();
    if same(stem, "crashreportclient") || has_prefix(stem, "eaanticheat") || has_prefix(
        stem,
        "easyanticheat",
    ) || has_text(stem, "eosoverlay") {
        return true;
    }
    let raw = text_or_empty(&proc.exe_path);
    let slashed = with_char_swapped(raw.as_str(), '\\', '/');
    let path = to_lower(slashed.as_str());
    has_text(path.as_str(), "/easyanticheat/") || has_text(path.as_str(), "/battleye/") || has_text(
        path.as_str(),
        "/eossdk/",
    ) || has_text(path.as_str(), "/eosoverlay")
}

/// The Steam games among the processes of a Windows system.
pub fn detect_steam(processes: &[ProcessSnapshot], steam: &SteamLibraryIndex) -> (r: Vec<
    GameIdentity,
>)
    ensures
        identity::id_views(r@) == platform::steam_games(
            identity::proc_views(processes@),
            steam.games@,
            HostOs::Windows,
        ),
{
    let mut list = steamlaunch_identities(processes, steam);
    add_by_path(&mut list, processes, steam, HostOs::Windows);
    list
}

} // verus!
