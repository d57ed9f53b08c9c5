//! Processes that must never be treated as games.

use vstd::prelude::*;

use crate::text;
use crate::text::{has_prefix, has_text, same, to_lower, without_suffixes};

verus! {

/// The programs that are denied by name: launchers and their helpers, crash
/// handlers, installers, browsers, recorders, system processes, shells and
/// development tools.
pub open spec fn listed(s: Seq<char>) -> bool {
    ||| s == "steam"@
    ||| s == "steamwebhelper"@
    ||| s == "gameoverlayui"@
    ||| s == "gameoverlayui64"@
    ||| s == "steamerrorreporter"@
    ||| s == "steamerrorreporter64"@
    ||| s == "steamservice"@
    ||| s == "cef_server"@
    ||| s == "crashpad_handler"@
    ||| s == "unitycrashhandler"@
    ||| s == "unitycrashhandler64"@
    ||| s == "unitycrashhandler32"@
    ||| s == "vcredist_x64"@
    ||| s == "vcredist_x86"@
    ||| s == "dxsetup"@
    ||| s == "dotnet"@
    ||| s == "msiexec"@
    ||| s == "setup"@
    ||| s == "installer"@
    ||| s == "msedgewebview2"@
    ||| s == "msedge"@
    ||| s == "chrome"@
    ||| s == "firefox"@
    ||| s == "explorer"@
    ||| s == "qtwebengineprocess"@
    ||| s == "obs-browser-page"@
    ||| s == "obs64"@
    ||| s == "obs32"@
    ||| s == "obs"@
    ||| s == "nvidia broadcast"@
    ||| s == "nvidia share"@
    ||| s == "nvcontainer"@
    ||| s == "textinputhost"@
    ||| s == "applicationframehost"@
    ||| s == "searchhost"@
    ||| s == "runtimebroker"@
    ||| s == "svchost"@
    ||| s == "dllhost"@
    ||| s == "conhost"@
    ||| s == "taskmgr"@
    ||| s == "powershell"@
    ||| s == "pwsh"@
    ||| s == "cmd"@
    ||| s == "code"@
    ||| s == "cursor"@
    ||| s == "node"@
    ||| s == "python"@
    ||| s == "cargo"@
    ||| s == "rustc"@
}

/// The name in lower case without its `.exe` endings.
pub open spec fn stem(name: Seq<char>) -> Seq<char> {
    text::trim_end_text(text::lower(name), ".exe"@)
}

/// The names that are denied by a part of them.
pub open spec fn denied_by_part(lower: Seq<char>, stem: Seq<char>) -> bool {
    ||| text::starts_with(stem, "unitycrashhandler"@)
    ||| text::starts_with(stem, "vcredist"@)
    ||| text::contains(stem, "crashhandler"@)
    ||| text::contains(stem, "crashreporter"@)
    ||| text::contains(stem, "webview"@)
    ||| text::starts_with(stem, "qtwebengine"@)
    ||| text::contains(lower, "easyanticheat"@)
    ||| text::contains(lower, "battleye"@)
    ||| text::contains(lower, "nvidia broadcast"@)
}

/// A process of this name is never a game.
pub open spec fn denied(name: Seq<char>) -> bool {
    ||| listed(stem(name))
    ||| listed(text::lower(name))
    ||| denied_by_part(text::lower(name), stem(name))
}

fn is_listed(s: &str) -> (r: bool)
    ensures
        r == listed(s@),
{
    same(s, "steam")
    || same(s, "steamwebhelper")
    || same(s, "gameoverlayui")
    || same(s, "gameoverlayui64")
    || same(s, "steamerrorreporter")
    || same(s, "steamerrorreporter64")
    || same(s, "steamservice")
    || same(s, "cef_server")
    || same(s, "crashpad_handler")
    || same(s, "unitycrashhandler")
    || same(s, "unitycrashhandler64")
    || same(s, "unitycrashhandler32")
    || same(s, "vcredist_x64")
    || same(s, "vcredist_x86")
    || same(s, "dxsetup")
    || same(s, "dotnet")
    || same(s, "msiexec")
    || same(s, "setup")
    || same(s, "installer")
    || same(s, "msedgewebview2")
    || same(s, "msedge")
    || same(s, "chrome")
    || same(s, "firefox")
    || same(s, "explorer")
    || same(s, "qtwebengineprocess")
    || same(s, "obs-browser-page")
    || same(s, "obs64")
    || same(s, "obs32")
    || same(s, "obs")
    || same(s, "nvidia broadcast")
    || same(s, "nvidia share")
    || same(s, "nvcontainer")
    || same(s, "textinputhost")
    || same(s, "applicationframehost")
    || same(s, "searchhost")
    || same(s, "runtimebroker")
    || same(s, "svchost")
    || same(s, "dllhost")
    || same(s, "conhost")
    || same(s, "taskmgr")
    || same(s, "powershell")
    || same(s, "pwsh")
    || same(s, "cmd")
    || same(s, "code")
    || same(s, "cursor")
    || same(s, "node")
    || same(s, "python")
    || same(s, "cargo")
    || same(s, "rustc")
}

/// Whether a process of this name is never a game.
pub fn is_denied(process_name: &str) -> (r: bool)
    ensures
        r == denied(process_name@),
{
    let name = to_lower(process_name);
    let stem = without_suffixes(name.as_str(), ".exe");
    if is_listed(stem.as_str()) || is_listed(name.as_str()) {
        return true;
    }
    has_prefix(stem.as_str(), "unitycrashhandler") || has_prefix(stem.as_str(), "vcredist")
        || has_text(stem.as_str(), "crashhandler") || has_text(stem.as_str(), "crashreporter")
        || has_text(stem.as_str(), "webview") || has_prefix(stem.as_str(), "qtwebengine")
        || has_text(name.as_str(), "easyanticheat") || has_text(name.as_str(), "battleye")
        || has_text(name.as_str(), "nvidia broadcast")
}

/// The case of ASCII letters in a name does not matter.
pub proof fn law_denied_ignores_case(a: Seq<char>, b: Seq<char>)
    requires
        text::same_letters(a, b),
    ensures
        denied(a) == denied(b),
{
}

} // verus!
