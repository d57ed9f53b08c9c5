//! Tables of processes and libraries for both systems.

use qmonitor::detect::platform;
use qmonitor::host::HostOs;
use qmonitor::identity::catalog::LocalCatalog;
use qmonitor::identity::detectable::{
    DetectableCatalog, DetectableEntry, DetectableExecutable, DetectableSku,
};
use qmonitor::identity::resolver::{IdentityPipeline, NullCrowdResolver};
use qmonitor::identity::steam_library::{SteamGame, SteamLibraryIndex};
use qmonitor::identity::{Confidence, ManualGame, ProcessSnapshot};
use qmonitor::keyed::KeyedList;

fn proc(pid: u32, name: &str, exe: Option<&str>, cmd: Option<&str>) -> ProcessSnapshot {
    ProcessSnapshot {
        pid,
        name: name.into(),
        exe_path: exe.map(str::to_string),
        cmdline: cmd.map(str::to_string),
    }
}

fn game(app_id: u32, title: &str, install_path: &str) -> SteamGame {
    SteamGame { app_id, title: title.into(), install_path: install_path.into() }
}

fn apex_steam() -> SteamLibraryIndex {
    let mut steam = SteamLibraryIndex::empty();
    steam.games.insert(
        1172470,
        game(1172470, "Apex Legends", r"D:\Steam\steamapps\common\Apex Legends"),
    );
    steam
}

fn dota_steam() -> SteamLibraryIndex {
    let mut steam = SteamLibraryIndex::empty();
    steam.games.insert(570, game(570, "Dota 2", "/games/steamapps/common/dota 2 beta"));
    steam
}

fn portal_and_portal2_steam() -> SteamLibraryIndex {
    let mut steam = SteamLibraryIndex::empty();
    steam.games.insert(400, game(400, "Portal", r"D:\Steam\steamapps\common\Portal"));
    steam.games.insert(620, game(620, "Portal 2", r"D:\Steam\steamapps\common\Portal 2"));
    steam
}

fn overlapping_nested_steam() -> SteamLibraryIndex {
    let mut steam = SteamLibraryIndex::empty();
    steam.games.insert(1, game(1, "Game", r"D:\Steam\steamapps\common\Game"));
    steam.games.insert(2, game(2, "Game DLC", r"D:\Steam\steamapps\common\Game\DLC"));
    steam
}

fn executable(os: &str, name: &str) -> DetectableExecutable {
    DetectableExecutable { os: os.into(), name: name.into(), is_launcher: false }
}

/// The executables of both systems, so that either host finds one match.
fn apex_discord() -> DetectableCatalog {
    DetectableCatalog::from_entries(
        vec![DetectableEntry {
            id: "apex-flake".into(),
            name: "Apex Legends".into(),
            executables: vec![executable("win32", "r5apex.exe"), executable("linux", "r5apex")],
            third_party_skus: vec![DetectableSku {
                distributor: Some("steam".into()),
                id: Some("1172470".into()),
            }],
        }],
        HostOs::Linux,
    )
}

fn crash_report_client() -> ProcessSnapshot {
    proc(
        1,
        "CrashReportClient.exe",
        Some(
            r"D:\Steam\steamapps\common\Apex Legends\Engine\Binaries\Win64\CrashReportClient.exe",
        ),
        None,
    )
}

fn r5apex_under_install() -> ProcessSnapshot {
    let name = "r5apex";
    proc(
        1,
        name,
        Some(&format!(r"D:\Steam\steamapps\common\Apex Legends\{name}")),
        None,
    )
}

fn reaper_dota() -> ProcessSnapshot {
    proc(9, "reaper", None, Some("reaper SteamLaunch AppId=570 --"))
}

fn wineserver_under_dota() -> ProcessSnapshot {
    proc(4, "wineserver", Some("/games/steamapps/common/dota 2 beta/wineserver"), None)
}

fn hades_under_eac_folder() -> ProcessSnapshot {
    proc(
        1,
        "Hades.exe",
        Some(r"D:\Steam\steamapps\common\Apex Legends\EasyAntiCheat\Hades.exe"),
        None,
    )
}

fn portal2_exe() -> ProcessSnapshot {
    proc(
        1,
        "portal2.exe",
        Some(r"D:\Steam\steamapps\common\Portal 2\bin\portal2.exe"),
        None,
    )
}

fn nested_dlc_exe() -> ProcessSnapshot {
    proc(1, "game.exe", Some(r"D:\Steam\steamapps\common\Game\DLC\game.exe"), None)
}

fn pipeline_with(
    steam: SteamLibraryIndex,
    detectable: DetectableCatalog,
    manual: Vec<ManualGame>,
) -> IdentityPipeline {
    IdentityPipeline {
        steam,
        catalog: LocalCatalog::empty(),
        detectable,
        user_mappings: KeyedList::new(),
        manual_games: manual,
        ignored_identities: KeyedList::new(),
        crowd: Box::new(NullCrowdResolver),
        host: HostOs::Linux,
    }
}

#[test]
fn portal2_is_not_a_prefix_of_portal() {
    let steam = portal_and_portal2_steam();
    let id = steam.match_path(&portal2_exe()).unwrap();
    assert_eq!(id.steam_app_id, Some(620));
    assert_eq!(id.confidence, Confidence::Low);
}

#[test]
fn fixtures_overlapping_installs_yield_no_path_match() {
    let steam = overlapping_nested_steam();
    assert!(steam.match_path(&nested_dlc_exe()).is_none());
}

#[test]
fn leftover_crash_reporter_is_not_auto_tracked() {
    let pipeline = pipeline_with(apex_steam(), apex_discord(), Vec::new());
    let (ids, pending) = pipeline.resolve_running(&[crash_report_client()]);
    assert!(ids.is_empty());
    assert!(pending.is_empty());
}

#[test]
fn path_only_game_exe_is_not_auto_tracked_without_discord() {
    let pipeline = pipeline_with(apex_steam(), DetectableCatalog::empty(), Vec::new());
    let (ids, pending) = pipeline.resolve_running(&[r5apex_under_install()]);
    assert!(ids.is_empty(), "path-only Low must not auto-track: {ids:?}");
    assert!(pending.is_empty());
}

#[test]
fn discord_unique_promotes_steam_path_to_medium() {
    let pipeline = pipeline_with(apex_steam(), apex_discord(), Vec::new());
    let (ids, pending) = pipeline.resolve_running(&[r5apex_under_install()]);
    assert!(pending.is_empty());
    assert_eq!(ids.len(), 1);
    assert_eq!(ids[0].id, "steam:1172470");
    assert_eq!(ids[0].confidence, Confidence::Medium);
    assert_eq!(ids[0].source, "steam-path");
}

#[test]
fn linux_reaper_cmdline_is_high() {
    let ids = platform::linux::detect_steam(&[reaper_dota()], &dota_steam());
    assert_eq!(ids.len(), 1);
    assert_eq!(ids[0].steam_app_id, Some(570));
    assert_eq!(ids[0].confidence, Confidence::High);
}

#[test]
fn linux_wineserver_under_install_is_not_path_matched() {
    let ids = platform::linux::detect_steam(&[wineserver_under_dota()], &dota_steam());
    assert!(ids.is_empty());
}

#[test]
fn wineserver_leftover_is_not_auto_tracked() {
    let pipeline = pipeline_with(dota_steam(), DetectableCatalog::empty(), Vec::new());
    let (ids, pending) = pipeline.resolve_running(&[wineserver_under_dota()]);
    assert!(ids.is_empty());
    assert!(pending.is_empty());
}

#[test]
fn manual_hades_bypasses_sidecar_skip() {
    let pipeline = pipeline_with(
        apex_steam(),
        DetectableCatalog::empty(),
        vec![ManualGame {
            id: "abc".into(),
            title: "Hades".into(),
            exe_name: "Hades.exe".into(),
            path_hint: Some("Apex Legends".into()),
            steam_app_id: Some(1145360),
        }],
    );
    let (ids, pending) = pipeline.resolve_running(&[hades_under_eac_folder()]);
    assert!(pending.is_empty());
    assert_eq!(ids.len(), 1);
    assert_eq!(ids[0].source, "manual");
    assert_eq!(ids[0].title, "Hades");
    assert_eq!(ids[0].id, "steam:1145360");
}
