//! The Steam library, launch command lines and the rules of either system.

use qmonitor::detect::platform;
use qmonitor::detect::platform::{linux, windows};
use qmonitor::detect::primary_identity;
use qmonitor::detect::process::{launch_cmdline, needs_launch_cmdline};
use qmonitor::detect::steam_reaper::{running_steam_app_ids, steamlaunch_identities};
use qmonitor::host::HostOs;
use qmonitor::identity::steam_library::{
    cmdline_has_app_id, is_manifest_name, library_folders, library_paths_of, parse_appmanifest,
    parse_reaper_app_ids, path_is_under_install, steam_id_of, steam_places_of, vdf_string,
    PlaceBase, SteamGame, SteamLibraryIndex,
};
use qmonitor::identity::{Confidence, GameIdentity, ProcessSnapshot};

fn game(app_id: u32, title: &str, install_path: &str) -> SteamGame {
    SteamGame { app_id, title: title.into(), install_path: install_path.into() }
}

fn one_game(app_id: u32, title: &str, install_path: &str) -> SteamLibraryIndex {
    let mut steam = SteamLibraryIndex::empty();
    steam.games.insert(app_id, game(app_id, title, install_path));
    steam
}

fn dota_index() -> SteamLibraryIndex {
    one_game(570, "Dota 2", "/games/steamapps/common/dota 2 beta")
}

fn apex_index() -> SteamLibraryIndex {
    one_game(1172470, "Apex Legends", r"D:\Steam\steamapps\common\Apex Legends")
}

fn id(key: &str, exe: &str, confidence: Confidence) -> GameIdentity {
    GameIdentity {
        id: key.into(),
        title: key.into(),
        steam_app_id: None,
        exe: Some(exe.into()),
        confidence,
        source: "test".into(),
        fingerprint: None,
    }
}

fn process(pid: u32, name: &str, exe_path: Option<&str>, cmdline: Option<&str>) -> ProcessSnapshot {
    ProcessSnapshot {
        pid,
        name: name.into(),
        exe_path: exe_path.map(str::to_string),
        cmdline: cmdline.map(str::to_string),
    }
}

#[test]
fn high_beats_foreground_medium() {
    let identities = vec![
        id("steam:1", "game.exe", Confidence::Medium),
        id("steam:2", "reaper", Confidence::High),
    ];
    let procs = vec![ProcessSnapshot {
        pid: 10,
        name: "game.exe".into(),
        exe_path: None,
        cmdline: None,
    }];
    let primary = primary_identity(&identities, Some(10), &procs).unwrap();
    assert_eq!(primary.id, "steam:2");
}

#[test]
fn foreground_wins_among_medium() {
    let identities = vec![
        id("a", "one.exe", Confidence::Medium),
        id("b", "two.exe", Confidence::Medium),
    ];
    let procs = vec![process(7, "TWO.EXE", None, None)];
    assert_eq!(primary_identity(&identities, Some(7), &procs).unwrap().id, "b");
    assert_eq!(primary_identity(&identities, Some(8), &procs).unwrap().id, "a");
    assert_eq!(primary_identity(&identities, None, &procs).unwrap().id, "a");
    assert!(primary_identity(&[], Some(7), &procs).is_none());
}

#[test]
fn reaper_cmdline_is_high() {
    let procs = vec![ProcessSnapshot {
        pid: 9,
        name: "reaper".into(),
        exe_path: None,
        cmdline: Some("reaper SteamLaunch AppId=570 --".into()),
    }];
    let ids = linux::detect_steam(&procs, &dota_index());
    assert_eq!(ids.len(), 1);
    assert_eq!(ids[0].steam_app_id, Some(570));
    assert_eq!(ids[0].confidence, Confidence::High);
    assert_eq!(ids[0].source, "steam");
}

#[test]
fn other_app_reaper_does_not_keep_570() {
    let mut steam = dota_index();
    steam.games.insert(
        730,
        game(730, "CS2", "/games/steamapps/common/Counter-Strike Global Offensive"),
    );
    let procs = vec![ProcessSnapshot {
        pid: 2,
        name: "reaper".into(),
        exe_path: None,
        cmdline: Some("reaper SteamLaunch AppId=730 --".into()),
    }];
    let ids = linux::detect_steam(&procs, &steam);
    assert_eq!(ids.len(), 1);
    assert_eq!(ids[0].steam_app_id, Some(730));
}

#[test]
fn wineserver_under_install_dir_is_not_path_matched() {
    let procs = vec![ProcessSnapshot {
        pid: 4,
        name: "wineserver".into(),
        exe_path: Some("/games/steamapps/common/dota 2 beta/wineserver".into()),
        cmdline: None,
    }];
    let ids = linux::detect_steam(&procs, &dota_index());
    assert!(ids.is_empty());
}

#[test]
fn native_dota_path_is_low() {
    let procs = vec![ProcessSnapshot {
        pid: 1,
        name: "dota2".into(),
        exe_path: Some("/games/steamapps/common/dota 2 beta/game/bin/linuxsteamrt64/dota2".into()),
        cmdline: None,
    }];
    let ids = linux::detect_steam(&procs, &dota_index());
    assert_eq!(ids.len(), 1);
    assert_eq!(ids[0].confidence, Confidence::Low);
    assert_eq!(ids[0].source, "steam-path");
}

#[test]
fn crash_report_client_under_apex_is_not_steam() {
    let procs = vec![ProcessSnapshot {
        pid: 1,
        name: "CrashReportClient.exe".into(),
        exe_path: Some(
            r"D:\Steam\steamapps\common\Apex Legends\Engine\Binaries\Win64\CrashReportClient.exe"
                .into(),
        ),
        cmdline: None,
    }];
    assert!(windows::detect_steam(&procs, &apex_index()).is_empty());
}

#[test]
fn r5apex_path_is_low_without_corroboration() {
    let procs = vec![ProcessSnapshot {
        pid: 2,
        name: "r5apex.exe".into(),
        exe_path: Some(r"D:\Steam\steamapps\common\Apex Legends\r5apex.exe".into()),
        cmdline: None,
    }];
    let ids = windows::detect_steam(&procs, &apex_index());
    assert_eq!(ids.len(), 1);
    assert_eq!(ids[0].steam_app_id, Some(1172470));
    assert_eq!(ids[0].confidence, Confidence::Low);
}

#[test]
fn easyanticheat_folder_is_sidecar() {
    let proc = ProcessSnapshot {
        pid: 3,
        name: "EasyAntiCheat_EOS.exe".into(),
        exe_path: Some(
            r"D:\Steam\steamapps\common\Apex Legends\EasyAntiCheat\EasyAntiCheat_EOS.exe".into(),
        ),
        cmdline: None,
    };
    assert!(windows::is_install_sidecar(&proc));
    assert!(windows::detect_steam(&[proc], &apex_index()).is_empty());
}

#[test]
fn unreal_game_exe_in_engine_binaries_is_not_a_sidecar() {
    let steam = one_game(42, "MyGame", r"D:\Steam\steamapps\common\MyGame");
    let proc = ProcessSnapshot {
        pid: 4,
        name: "MyGame.exe".into(),
        exe_path: Some(r"D:\Steam\steamapps\common\MyGame\Engine\Binaries\Win64\MyGame.exe".into()),
        cmdline: None,
    };
    assert!(!windows::is_install_sidecar(&proc));
    let ids = windows::detect_steam(&[proc], &steam);
    assert_eq!(ids.len(), 1);
    assert_eq!(ids[0].steam_app_id, Some(42));
    assert_eq!(ids[0].confidence, Confidence::Low);
}

#[test]
fn the_host_decides_which_rules_hold() {
    let reaper = [process(9, "reaper", None, Some("reaper SteamLaunch AppId=570 --"))];
    let linux_ids = platform::detect_steam(&reaper, &dota_index(), HostOs::Linux);
    assert_eq!(linux_ids.len(), 1);
    assert_eq!(linux_ids[0].confidence, Confidence::High);
    let eac = [process(
        3,
        "EasyAntiCheat_EOS.exe",
        Some(r"D:\Steam\steamapps\common\Apex Legends\EasyAntiCheat\EasyAntiCheat_EOS.exe"),
        None,
    )];
    assert!(platform::detect_steam(&eac, &apex_index(), HostOs::Windows).is_empty());
}

#[test]
fn launch_cmdline_only_for_reaper_like_names() {
    assert!(needs_launch_cmdline("reaper"));
    assert!(needs_launch_cmdline("reaper.exe"));
    assert!(needs_launch_cmdline("steam-launch-wrapper"));
    assert!(!needs_launch_cmdline("dota2.exe"));
    assert!(!needs_launch_cmdline("r5apex.exe"));
    assert!(!needs_launch_cmdline("chrome.exe"));
    assert!(!needs_launch_cmdline("steam.exe"));
}

#[test]
fn launch_arguments_are_joined() {
    let args: Vec<String> = vec!["reaper".into(), "SteamLaunch".into(), "AppId=570".into()];
    assert_eq!(launch_cmdline("reaper", &args).as_deref(), Some("reaper SteamLaunch AppId=570"));
    assert!(launch_cmdline("dota2", &args).is_none());
    assert!(launch_cmdline("reaper", &Vec::new()).is_none());
}

#[test]
fn collects_reaper_ids() {
    let procs = vec![
        ProcessSnapshot {
            pid: 1,
            name: "reaper".into(),
            exe_path: None,
            cmdline: Some("reaper SteamLaunch AppId=730 --".into()),
        },
        ProcessSnapshot {
            pid: 2,
            name: "reaper".into(),
            exe_path: None,
            cmdline: Some("reaper SteamLaunch AppId=440 --".into()),
        },
    ];
    let mut ids = running_steam_app_ids(&procs);
    ids.sort();
    assert_eq!(ids, vec![440, 730]);
}

#[test]
fn steamlaunch_identities_are_high() {
    let steam = one_game(570, "Dota 2", "/games/dota");
    let procs = vec![ProcessSnapshot {
        pid: 9,
        name: "reaper".into(),
        exe_path: None,
        cmdline: Some("reaper SteamLaunch AppId=570 --".into()),
    }];
    let ids = steamlaunch_identities(&procs, &steam);
    assert_eq!(ids.len(), 1);
    assert_eq!(ids[0].steam_app_id, Some(570));
    assert_eq!(ids[0].confidence, Confidence::High);
}

#[test]
fn a_title_is_launched_once() {
    let steam = one_game(570, "Dota 2", "/games/dota");
    let launch = "reaper SteamLaunch AppId=570 SteamLaunch AppId=570";
    let procs =
        [process(1, "reaper", None, Some(launch)), process(2, "reaper", None, Some(launch))];
    let ids = steamlaunch_identities(&procs, &steam);
    assert_eq!(ids.len(), 1);
    assert_eq!(ids[0].id, "steam:570");
    assert_eq!(ids[0].exe.as_deref(), Some("reaper"));
}

#[test]
fn reaper_app_id_boundary() {
    assert!(cmdline_has_app_id("reaper SteamLaunch AppId=440 -- game", 440));
    assert!(!cmdline_has_app_id("reaper SteamLaunch AppId=4400 -- game", 440));
    assert!(cmdline_has_app_id("reaper SteamLaunch AppId=4400 -- game", 4400));
    assert_eq!(
        parse_reaper_app_ids("reaper SteamLaunch AppId=570 SteamLaunch AppId=440"),
        vec![570, 440]
    );
}

#[test]
fn reaper_ids_come_once_and_fit() {
    assert_eq!(
        parse_reaper_app_ids("SteamLaunch AppId=7 SteamLaunch AppId=7 SteamLaunch AppId=8"),
        vec![7, 8]
    );
    assert_eq!(
        parse_reaper_app_ids("SteamLaunch AppId=x SteamLaunch AppId=99999999999 SteamLaunch AppId=3"),
        vec![3]
    );
    assert!(parse_reaper_app_ids("AppId=570").is_empty());
    assert!(parse_reaper_app_ids("reaper SteamLaunch AppId=").is_empty());
    assert_eq!(parse_reaper_app_ids("SteamLaunch AppId=é SteamLaunch AppId=5"), vec![5]);
}

#[test]
fn an_id_is_found_behind_a_longer_one() {
    let line = "reaper SteamLaunch AppId=4400 SteamLaunch AppId=440";
    assert!(cmdline_has_app_id(line, 440));
    assert!(cmdline_has_app_id(line, 4400));
    assert!(!cmdline_has_app_id(line, 44));
    let steam = one_game(440, "Team Fortress 2", "/games/tf2");
    let ids = steamlaunch_identities(&[process(1, "reaper", None, Some(line))], &steam);
    assert!(ids.iter().any(|i| i.id == "steam:440"));
}

#[test]
fn path_under_installdir() {
    let index = one_game(570, "Dota 2", r"D:\Steam\steamapps\common\dota 2 beta");
    let proc = ProcessSnapshot {
        pid: 1,
        name: "dota2.exe".into(),
        exe_path: Some(r"D:\Steam\steamapps\common\dota 2 beta\game\bin\win64\dota2.exe".into()),
        cmdline: None,
    };
    let id = index.match_path(&proc).unwrap();
    assert_eq!(id.steam_app_id, Some(570));
    assert_eq!(id.confidence, Confidence::Low);
    assert_eq!(id.source, "steam-path");
}

#[test]
fn path_boundary_portal_vs_portal_2() {
    let portal = r"D:\Steam\steamapps\common\Portal";
    let portal2_exe = r"D:\Steam\steamapps\common\Portal 2\bin\portal2.exe";
    assert!(!path_is_under_install(portal2_exe, portal));
    assert!(path_is_under_install(r"D:\Steam\steamapps\common\Portal\portal.exe", portal));
}

#[test]
fn steam_library_overlapping_installs_yield_no_path_match() {
    let mut index = SteamLibraryIndex::empty();
    index.games.insert(1, game(1, "Nested", r"D:\Steam\steamapps\common\Game"));
    index.games.insert(2, game(2, "Nested Too", r"D:\Steam\steamapps\common\Game"));
    let proc = ProcessSnapshot {
        pid: 1,
        name: "game.exe".into(),
        exe_path: Some(r"D:\Steam\steamapps\common\Game\game.exe".into()),
        cmdline: None,
    };
    assert!(index.match_path(&proc).is_none());
}

#[test]
fn paths_match_whatever_the_case_and_the_slashes() {
    assert!(path_is_under_install("d:/steam/COMMON/portal/hl2.exe", r"D:\Steam\common\Portal\"));
    assert!(path_is_under_install("/games/portal", "/games/Portal"));
    assert!(!path_is_under_install("/games/portal", ""));
}

#[test]
fn steam_ids_differ() {
    assert_eq!(steam_id_of(570), "steam:570");
    assert_ne!(steam_id_of(57), steam_id_of(570));
}

#[test]
fn library_folders_are_read() {
    let raw = "\"libraryfolders\"\n{\n\t\"0\"\n\t{\n\t\t\"path\"\t\t\"C:\\\\Steam\"\n\t}\n\t\"1\"\n\t{\n\t\t\"path\"\t\t\"D:\\\\Games\"\n\t}\n}\n";
    assert_eq!(library_paths_of(raw), vec![r"C:\Steam".to_string(), r"D:\Games".to_string()]);
    assert_eq!(vdf_string("  \"name\"\t\t\"Portal 2\"", "name").as_deref(), Some("Portal 2"));
    assert!(vdf_string("\"name\" \"Portal 2\"", "appid").is_none());
}

#[test]
fn library_folders_are_listed_once() {
    let paths: Vec<String> = ["/b", "/a", "/c", "/b"].iter().map(|p| p.to_string()).collect();
    assert_eq!(
        library_folders("/a".into(), &paths, &vec![true, true, false, true]),
        vec!["/a".to_string(), "/b".to_string()]
    );
}

#[test]
fn manifests_are_read() {
    let raw = "\"AppState\"\n{\n\t\"appid\"\t\t\"620\"\n\t\"name\"\t\t\"Portal 2\"\n\t\"installdir\"\t\t\"Portal 2\"\n}\n";
    let manifest = parse_appmanifest(raw).unwrap();
    assert_eq!(manifest.app_id, 620);
    assert_eq!(manifest.title, "Portal 2");
    assert_eq!(manifest.install_dir, "Portal 2");
    assert!(parse_appmanifest("\"AppState\"\n{\n\t\"appid\"\t\t\"x\"\n}\n").is_none());
    assert!(is_manifest_name("appmanifest_620.acf"));
    assert!(!is_manifest_name("appmanifest_620.txt"));
    assert!(!is_manifest_name("libraryfolders.vdf"));
}

#[test]
fn a_known_title_is_resolved_by_its_number() {
    let mut index = SteamLibraryIndex::empty();
    index.add_game(game(620, "Portal 2", "/games/portal2"));
    assert_eq!(index.app_ids(), vec![620]);
    let identity = index.resolve_app_id(620).unwrap();
    assert_eq!(identity.id, "steam:620");
    assert_eq!(identity.title, "Portal 2");
    assert_eq!(identity.confidence, Confidence::High);
    assert_eq!(identity.source, "steam");
    assert!(linux::is_proton_wrapper("wineserver"));
    assert!(!linux::is_proton_wrapper("dota2"));
}

#[test]
fn places_where_steam_may_stand() {
    let windows = steam_places_of(HostOs::Windows);
    assert_eq!(windows.len(), 3);
    assert_eq!(windows[0].path, r"C:\Program Files (x86)\Steam");
    assert_eq!(windows[1].mark, Some("steam.exe"));
    assert_eq!(windows[2].base, PlaceBase::ProgramFiles);
    let linux = steam_places_of(HostOs::Linux);
    assert!(linux.iter().all(|p| p.base == PlaceBase::Home && p.mark.is_none()));
    assert_eq!(linux[0].path, ".steam/steam");
    assert_eq!(linux[2].path, ".var/app/com.valvesoftware.Steam/data/Steam");
    assert!(steam_places_of(HostOs::MacOs).is_empty());
}
