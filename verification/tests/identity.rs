//! Catalogs, names that are passed over, fingerprints and the pipeline.

use qmonitor::digest::text_digest_of;
use qmonitor::host::{current_discord_os, current_os_label, HostOs};
use qmonitor::identity::catalog::{CatalogEntry, CatalogExecutable, LocalCatalog};
use qmonitor::identity::deny::is_denied;
use qmonitor::identity::detectable::{
    meta_is_fresh, refresh_step, DetectableCatalog, DetectableEntry, DetectableExecutable,
    DetectableMeta, DetectableSku, RefreshEvent, RefreshStep,
};
use qmonitor::identity::fingerprint::{fingerprint_parts, fingerprint_process};
use qmonitor::identity::resolver::{
    absorb_discord, manual_id_of, match_manual_game, parse_exe_input, CrowdResolver,
    IdentityPipeline, NullCrowdResolver, UserMapping,
};
use qmonitor::identity::steam_library::{SteamGame, SteamLibraryIndex};
use qmonitor::identity::{push_unique, Confidence, GameIdentity, ManualGame, ProcessSnapshot};
use qmonitor::keyed::KeyedList;

const HOST: HostOs = HostOs::Linux;

fn process(name: &str, exe_path: Option<&str>, cmdline: Option<&str>) -> ProcessSnapshot {
    ProcessSnapshot {
        pid: 1,
        name: name.into(),
        exe_path: exe_path.map(str::to_string),
        cmdline: cmdline.map(str::to_string),
    }
}

fn entry(id: &str, name: &str, exe: &str, hint: &str, arguments: Option<&str>) -> CatalogEntry {
    CatalogEntry {
        id: id.into(),
        name: name.into(),
        executables: vec![CatalogExecutable {
            os: current_os_label(HOST).into(),
            name: exe.into(),
            is_launcher: false,
        }],
        path_hints: vec![hint.into()],
        arguments: arguments.map(str::to_string),
    }
}

#[test]
fn path_hint_raises_confidence() {
    let catalog = LocalCatalog {
        entries: vec![entry("local:hades", "Hades", "Hades.exe", "Hades", None)],
    };
    let proc = process("Hades.exe", Some(r"C:\Games\Hades\Hades.exe"), None);
    let id = catalog.match_process(&proc, HOST).unwrap();
    assert_eq!(id.confidence, Confidence::Medium);
    assert_eq!(id.title, "Hades");
}

#[test]
fn bare_exe_is_low_confidence() {
    let catalog = LocalCatalog {
        entries: vec![entry("local:hades", "Hades", "Hades.exe", "SupergiantGames", None)],
    };
    let proc = process("Hades.exe", Some(r"C:\elsewhere\Hades.exe"), None);
    let id = catalog.match_process(&proc, HOST).unwrap();
    assert_eq!(id.confidence, Confidence::Low);
}

#[test]
fn arguments_disambiguate_shared_exe() {
    let catalog = LocalCatalog {
        entries: vec![entry(
            "local:gmod",
            "Garry's Mod",
            "hl2.exe",
            "garrysmod",
            Some("-game garrysmod"),
        )],
    };
    let hit = process(
        "hl2.exe",
        Some(r"C:\Steam\steamapps\common\GarrysMod\hl2.exe"),
        Some("hl2.exe -game garrysmod"),
    );
    let miss = process(
        "hl2.exe",
        Some(r"C:\Steam\steamapps\common\HalfLife2\hl2.exe"),
        Some("hl2.exe -game hl2"),
    );
    assert!(catalog.match_process(&hit, HOST).is_some());
    assert!(catalog.match_process(&miss, HOST).is_none());
}

#[test]
fn an_empty_catalog_knows_nothing() {
    let catalog = LocalCatalog::empty();
    assert!(catalog.match_process(&process("Hades.exe", None, None), HOST).is_none());
}

#[test]
fn denies_steam_helpers() {
    assert!(is_denied("steam.exe"));
    assert!(is_denied("steamwebhelper"));
    assert!(is_denied("UnityCrashHandler64.exe"));
    assert!(!is_denied("dota2.exe"));
    assert!(!is_denied("Hades.exe"));
}

#[test]
fn denies_common_non_games() {
    assert!(is_denied("msedgewebview2.exe"));
    assert!(is_denied("QtWebEngineProcess.exe"));
    assert!(is_denied("obs-browser-page.exe"));
    assert!(is_denied("NVIDIA Broadcast.exe"));
}

#[test]
fn denying_ignores_case() {
    assert!(is_denied("STEAM.EXE"));
    assert!(is_denied("Steam"));
}

fn discord_entry(id: &str, name: &str, os: &str, exe: &str, is_launcher: bool) -> DetectableEntry {
    DetectableEntry {
        id: id.into(),
        name: name.into(),
        executables: vec![DetectableExecutable { os: os.into(), name: exe.into(), is_launcher }],
        third_party_skus: vec![],
    }
}

fn win_os_entries() -> Vec<DetectableEntry> {
    let os = current_discord_os(HOST);
    let other = if os == "win32" { "linux" } else { "win32" };
    let mut overwatch = discord_entry("111", "Overwatch", os, "overwatch.exe", false);
    overwatch.third_party_skus = vec![DetectableSku {
        distributor: Some("steam".into()),
        id: Some("2357570".into()),
    }];
    vec![
        overwatch,
        discord_entry("222", "PUBG", os, "win64/tslgame.exe", false),
        discord_entry("333", "Launcher Only", os, "gamelauncher.exe", true),
        discord_entry("444", "Wrong OS Game", other, "wrongos.exe", false),
        discord_entry("555", "Shared A", os, "shared.exe", false),
        discord_entry("666", "Shared B", os, "shared.exe", false),
    ]
}

#[test]
fn bare_exe_unique_is_medium_with_steam_sku() {
    let catalog = DetectableCatalog::from_entries(win_os_entries(), HOST);
    let proc = process("Overwatch.exe", Some(r"C:\Games\Overwatch\Overwatch.exe"), None);
    let id = catalog.match_process(&proc).unwrap();
    assert_eq!(id.id, "discord:111");
    assert_eq!(id.title, "Overwatch");
    assert_eq!(id.confidence, Confidence::Medium);
    assert_eq!(id.source, "discord");
    assert_eq!(id.steam_app_id, Some(2357570));
}

#[test]
fn path_pattern_requires_suffix() {
    let catalog = DetectableCatalog::from_entries(win_os_entries(), HOST);
    let miss = process("tslgame.exe", Some(r"C:\elsewhere\tslgame.exe"), None);
    assert!(catalog.match_process(&miss).is_none());

    let hit = process("tslgame.exe", Some(r"C:\Games\PUBG\win64\tslgame.exe"), None);
    let id = catalog.match_process(&hit).unwrap();
    assert_eq!(id.id, "discord:222");
    assert_eq!(id.confidence, Confidence::Medium);
}

#[test]
fn shared_basename_is_low() {
    let catalog = DetectableCatalog::from_entries(win_os_entries(), HOST);
    let proc = process("shared.exe", Some(r"C:\Games\shared.exe"), None);
    let id = catalog.match_process(&proc).unwrap();
    assert_eq!(id.confidence, Confidence::Low);
    assert!(id.id == "discord:555" || id.id == "discord:666");
}

#[test]
fn launcher_and_wrong_os_skipped() {
    let catalog = DetectableCatalog::from_entries(win_os_entries(), HOST);
    let launcher = process("gamelauncher.exe", None, None);
    assert!(catalog.match_process(&launcher).is_none());

    let wrong = process("wrongos.exe", None, None);
    assert!(catalog.match_process(&wrong).is_none());
}

#[test]
fn meta_freshness() {
    let meta = DetectableMeta { url: "https://example.com/d".into(), fetched_at: 1_000 };
    assert!(meta_is_fresh(&meta, "https://example.com/d", 100, 1_050));
    assert!(!meta_is_fresh(&meta, "https://example.com/d", 100, 1_200));
    assert!(!meta_is_fresh(&meta, "https://other.example/d", 100, 1_050));
}

#[test]
fn from_json_parses_minimal() {
    let entries = vec![DetectableEntry {
        id: "99".into(),
        name: "Test Game".into(),
        executables: vec![
            DetectableExecutable {
                os: "win32".into(),
                name: "testgame.exe".into(),
                is_launcher: false,
            },
            DetectableExecutable { os: "linux".into(), name: "testgame".into(), is_launcher: false },
        ],
        third_party_skus: vec![],
    }];
    let catalog = DetectableCatalog::from_entries(entries, HOST);
    assert_eq!(catalog.len(), 1);
    assert!(!catalog.is_empty());
    let id = catalog.match_process(&process("testgame", None, None)).unwrap();
    assert_eq!(id.title, "Test Game");
    assert!(DetectableCatalog::empty().is_empty());
}

#[test]
fn a_fresh_catalog_is_used_and_a_stale_one_is_fetched() {
    let url = "https://example.com/d";
    let meta = || Some(DetectableMeta { url: url.into(), fetched_at: 1_000 });
    let step = |event: RefreshEvent| refresh_step(&event, url, 100, 1_050);
    assert_eq!(step(RefreshEvent::MetaRead(meta())), RefreshStep::ReadCache);
    assert_eq!(step(RefreshEvent::MetaRead(None)), RefreshStep::Download);
    assert_eq!(
        refresh_step(&RefreshEvent::MetaRead(meta()), url, 100, 1_200),
        RefreshStep::Download
    );
    assert_eq!(refresh_step(&RefreshEvent::MetaRead(meta()), url, 0, 1_000), RefreshStep::Download);
    assert_eq!(step(RefreshEvent::CacheRead(0)), RefreshStep::Download);
    assert_eq!(step(RefreshEvent::CacheRead(5)), RefreshStep::UseCache);
    assert_eq!(step(RefreshEvent::Downloaded(None)), RefreshStep::UseCache);
    assert_eq!(step(RefreshEvent::Downloaded(Some(true))), RefreshStep::UseDownloaded);
}

#[test]
fn fingerprint_is_stable() {
    let proc = process(
        "Hades.exe",
        Some(r"D:\Games\Hades\Hades.exe"),
        Some(r"D:\Games\Hades\Hades.exe -windowed"),
    );
    let a = fingerprint_process(&proc);
    let b = fingerprint_process(&proc);
    assert_eq!(a, b);
    assert_eq!(a.len(), 64);
}

#[test]
fn fingerprint_tells_names_folders_and_flags_apart() {
    let plain = fingerprint_parts("Hades.exe", None, None);
    let placed = fingerprint_parts("Hades.exe", Some(("Hades.exe", "Hades")), None);
    let flagged = fingerprint_parts("Hades.exe", None, Some("Hades.exe -windowed"));
    assert_ne!(plain, placed);
    assert_ne!(plain, flagged);
    assert_eq!(plain, fingerprint_process(&process("Hades.exe", None, None)));
    assert_eq!(placed, fingerprint_parts("hades.EXE", Some(("HADES.exe", "hades")), None));
    assert_eq!(
        fingerprint_process(&process("Hades.exe", Some("/games/Hades/game.exe"), None)),
        fingerprint_parts("Hades.exe", Some(("Hades", "game.exe")), None)
    );
    assert_eq!(
        fingerprint_process(&process("Hades.exe", Some("game.exe"), Some("game.exe -w /x -v"))),
        fingerprint_parts("Hades.exe", Some(("", "game.exe")), Some("-w -v"))
    );
    assert_eq!(
        fingerprint_parts("Hades.exe", Some(("Hades", "game.exe")), Some("-w x -v")),
        text_digest_of("hades.exe|hades|game.exe|-w|-v")
    );
    assert_eq!(
        fingerprint_process(&process("Hades.exe", Some("/games/Hades/Hades.exe"), None)),
        fingerprint_process(&process("Hades.exe", Some("/home/me/Hades/Hades.exe"), None)),
    );
    assert_ne!(
        fingerprint_process(&process("Hades.exe", Some("/games/Hades/Hades.exe"), None)),
        fingerprint_process(&process("Hades.exe", Some("/games/Other/Hades.exe"), None)),
    );
}

#[test]
fn processes_that_lie_alike_have_one_fingerprint() {
    let of = |name, path, cmd| fingerprint_process(&process(name, path, cmd));
    assert_eq!(
        of("HADES.exe", Some("/a//Games/./hades.EXE"), Some("/a/hades.EXE -w x")),
        of("hades.exe", Some("/home/me/games/Hades.exe"), Some("hades -w")),
    );
    assert_eq!(
        of("HADES.exe", Some("D:/Games/Hades.exe"), None),
        of("Hades.exe", Some("E:/x/GAMES/hades.exe"), None),
    );
    assert_eq!(of("HADES.exe", None, Some("-w")), of("Hades.exe", None, Some("a -w b")));
    assert_ne!(of("Hades.exe", None, None), of("Hades.exe", Some("Hades.exe"), None));
    assert_eq!(
        of("Hades.exe", None, Some("1 2 3 4 5 6 7 -a -b")),
        of("Hades.exe", None, Some("-a")),
    );
}

#[test]
fn fingerprints_read_paths_by_their_components() {
    let of = |path: &str| fingerprint_process(&process("Hades.exe", Some(path), None));
    let placed = |dir, file| fingerprint_parts("Hades.exe", Some((dir, file)), None);
    assert_eq!(of("/games/./Hades//game.exe/"), placed("Hades", "game.exe"));
    assert_eq!(of("/game.exe"), placed("", "game.exe"));
    assert_eq!(of("./game.exe"), placed("", "game.exe"));
    assert_eq!(of("/games/Hades/.."), placed("Hades", "Hades.exe"));
    assert_eq!(of("/"), placed("", "Hades.exe"));
    assert_eq!(of(""), placed("", "Hades.exe"));
    let windows = r"C:\Users\me\Hades\game.exe";
    assert!(of(windows) == placed("Hades", "game.exe") || of(windows) == placed("", windows));
}

fn empty_pipeline() -> IdentityPipeline {
    IdentityPipeline {
        steam: SteamLibraryIndex::empty(),
        catalog: LocalCatalog::empty(),
        detectable: DetectableCatalog::empty(),
        user_mappings: KeyedList::new(),
        manual_games: Vec::new(),
        ignored_identities: KeyedList::new(),
        crowd: Box::new(NullCrowdResolver),
        host: HOST,
    }
}

fn dota() -> SteamLibraryIndex {
    let mut steam = SteamLibraryIndex::empty();
    steam.games.insert(
        570,
        SteamGame { app_id: 570, title: "Dota 2".into(), install_path: "/games/dota".into() },
    );
    steam
}

fn reaper() -> ProcessSnapshot {
    ProcessSnapshot {
        pid: 9,
        name: "reaper".into(),
        exe_path: None,
        cmdline: Some("reaper SteamLaunch AppId=570 --".into()),
    }
}

#[test]
fn steam_reaper_wins() {
    let pipeline = IdentityPipeline { steam: dota(), ..empty_pipeline() };
    let (ids, _) = pipeline.resolve_running(&[reaper()]);
    assert_eq!(ids.len(), 1);
    assert_eq!(ids[0].steam_app_id, Some(570));
    assert_eq!(ids[0].confidence, Confidence::High);
}

#[test]
fn unknown_exe_never_pending() {
    let pipeline = empty_pipeline();
    let procs = vec![
        process("msedgewebview2.exe", Some(r"C:\Program Files\msedgewebview2.exe"), None),
        process("NVIDIA Broadcast.exe", Some(r"C:\Program Files\NVIDIA Broadcast.exe"), None),
        process("zen.exe", Some(r"C:\Users\me\zen.exe"), None),
    ];
    let (ids, pending) = pipeline.resolve_running(&procs);
    assert!(ids.is_empty());
    assert!(pending.is_empty());
}

fn shared(id: &str, name: &str) -> DetectableEntry {
    DetectableEntry {
        id: id.into(),
        name: name.into(),
        executables: vec![
            DetectableExecutable {
                os: "win32".into(),
                name: "shared.exe".into(),
                is_launcher: false,
            },
            DetectableExecutable { os: "linux".into(), name: "shared".into(), is_launcher: false },
        ],
        third_party_skus: vec![],
    }
}

#[test]
fn discord_low_goes_pending() {
    let detectable = DetectableCatalog::from_entries(
        vec![shared("555", "Shared A"), shared("666", "Shared B")],
        HOST,
    );
    let pipeline = IdentityPipeline { detectable, ..empty_pipeline() };
    let procs = vec![process("shared", Some("/games/shared"), None)];
    let (ids, pending) = pipeline.resolve_running(&procs);
    assert!(ids.is_empty());
    assert_eq!(pending.len(), 1);
    assert!(pending[0].identity_id.is_some());
}

#[test]
fn ignored_identity_filtered() {
    let mut ignored = KeyedList::new();
    ignored.insert("steam:570".to_string());
    let pipeline =
        IdentityPipeline { steam: dota(), ignored_identities: ignored, ..empty_pipeline() };
    let (ids, _) = pipeline.resolve_running(&[reaper()]);
    assert!(ids.is_empty());
}

#[test]
fn ignored_identity_is_not_pending() {
    let detectable = DetectableCatalog::from_entries(
        vec![shared("555", "Shared A"), shared("666", "Shared B")],
        HOST,
    );
    let mut ignored = KeyedList::new();
    ignored.insert("discord:555".to_string());
    ignored.insert("discord:666".to_string());
    let pipeline = IdentityPipeline { detectable, ignored_identities: ignored, ..empty_pipeline() };
    let (ids, pending) = pipeline.resolve_running(&[process("shared", Some("/games/shared"), None)]);
    assert!(ids.is_empty());
    assert!(pending.is_empty());
}

#[test]
fn manual_game_matches_path() {
    let (exe_name, path_hint) = parse_exe_input(r"D:\Games\Hades\Hades.exe").unwrap();
    assert_eq!(exe_name, "Hades.exe");
    assert_eq!(path_hint.as_deref(), Some("Hades"));

    let mut pipeline = empty_pipeline();
    pipeline.manual_games.push(ManualGame {
        id: "abc".into(),
        title: "Hades".into(),
        exe_name,
        path_hint,
        steam_app_id: Some(1145360),
    });
    let procs = vec![process("Hades.exe", Some(r"D:\Games\Hades\Hades.exe"), None)];
    let (ids, pending) = pipeline.resolve_running(&procs);
    assert!(pending.is_empty());
    assert_eq!(ids.len(), 1);
    assert_eq!(ids[0].title, "Hades");
    assert_eq!(ids[0].id, "steam:1145360");
    assert_eq!(ids[0].source, "manual");
}

#[test]
fn parse_bare_exe() {
    let (name, hint) = parse_exe_input("game.exe").unwrap();
    assert_eq!(name, "game.exe");
    assert!(hint.is_none());
}

#[test]
fn parse_unix_style_path() {
    let (name, hint) = parse_exe_input("/opt/games/Hades/Hades.exe").unwrap();
    assert_eq!(name, "Hades.exe");
    assert_eq!(hint.as_deref(), Some("Hades"));
}

#[test]
fn an_executable_needs_a_name() {
    assert!(parse_exe_input("   ").is_err());
    assert!(parse_exe_input("\"\"").is_err());
}

#[test]
fn a_confirmed_title_comes_first() {
    let proc = process("mygame", Some("/games/my/mygame"), None);
    let fingerprint = fingerprint_process(&proc);
    let mut pipeline = empty_pipeline();
    pipeline.user_mappings.insert(UserMapping {
        fingerprint: fingerprint.clone(),
        title: "My Game".into(),
        identity_id: format!("user:{fingerprint}"),
    });
    let (ids, pending) = pipeline.resolve_running(&[proc]);
    assert!(pending.is_empty());
    assert_eq!(ids.len(), 1);
    assert_eq!(ids[0].title, "My Game");
    assert_eq!(ids[0].id, format!("user:{fingerprint}"));
    assert_eq!(ids[0].fingerprint.as_deref(), Some(fingerprint.as_str()));
}

struct KnowsAll;

impl CrowdResolver for KnowsAll {
    fn resolve(&self, fingerprint: &str) -> Option<GameIdentity> {
        Some(GameIdentity {
            id: format!("crowd:{fingerprint}"),
            title: "Crowd Game".into(),
            steam_app_id: None,
            exe: None,
            confidence: Confidence::Medium,
            source: "crowd".into(),
            fingerprint: Some(fingerprint.into()),
        })
    }
}

#[test]
fn the_crowd_is_asked_last() {
    let pipeline = IdentityPipeline { crowd: Box::new(KnowsAll), ..empty_pipeline() };
    let (ids, _) = pipeline.resolve_running(&[process("mygame", None, None)]);
    assert_eq!(ids.len(), 1);
    assert_eq!(ids[0].source, "crowd");
    let (none, _) = pipeline.resolve_running(&[process("steam.exe", None, None)]);
    assert!(none.is_empty());
}

#[test]
fn what_the_user_has_entered_beats_a_hit_by_path() {
    let mut pipeline = IdentityPipeline { steam: dota(), ..empty_pipeline() };
    pipeline.manual_games.push(ManualGame {
        id: "abc".into(),
        title: "My Dota".into(),
        exe_name: "dota2".into(),
        path_hint: None,
        steam_app_id: Some(570),
    });
    let install = pipeline.steam.games[&570].install_path.clone();
    let path = format!("{install}/game/dota2");
    let running = process("dota2", Some(&path), None);
    let (ids, _) = pipeline.resolve_running(&[running]);
    assert_eq!(ids.len(), 1);
    assert_eq!(ids[0].id, "steam:570");
    assert_eq!(ids[0].title, "My Dota");
    assert_eq!(ids[0].confidence, Confidence::Medium);
    pipeline.ignored_identities.insert("steam:570".into());
    let (none, _) = pipeline.resolve_running(&[process("dota2", Some(&path), None)]);
    assert!(none.is_empty());
}

#[test]
fn a_denied_process_changes_nothing() {
    let pipeline = IdentityPipeline { steam: dota(), ..empty_pipeline() };
    let helper = || process("steam.exe", Some("/x/steam"), Some("SteamLaunch AppId=440"));
    let (ids, pending) = pipeline.resolve_running(&[reaper()]);
    let (more, more_pending) = pipeline.resolve_running(&[helper(), reaper(), helper()]);
    assert_eq!(ids.len(), more.len());
    assert_eq!(ids[0].id, more[0].id);
    assert_eq!(pending.len(), more_pending.len());
}

#[test]
fn manual_games_are_named_by_their_steam_number() {
    let mut manual = ManualGame {
        id: "abc".into(),
        title: "Hades".into(),
        exe_name: "Hades.exe".into(),
        path_hint: Some("Supergiant".into()),
        steam_app_id: Some(1145360),
    };
    assert_eq!(manual_id_of(&manual), "steam:1145360");
    manual.steam_app_id = None;
    assert_eq!(manual_id_of(&manual), "manual:abc");
    let elsewhere = process("hades.exe", Some("/other/hades.exe"), None);
    assert!(match_manual_game(&[manual.clone()], &elsewhere).is_none());
    let there = process("hades.exe", Some("/games/SUPERGIANT/hades.exe"), None);
    assert_eq!(match_manual_game(&[manual], &there).unwrap().id, "manual:abc");
}

fn found(id: &str, steam_app_id: Option<u32>, confidence: Confidence, source: &str) -> GameIdentity {
    GameIdentity {
        id: id.into(),
        title: id.into(),
        steam_app_id,
        exe: Some("game".into()),
        confidence,
        source: source.into(),
        fingerprint: None,
    }
}

#[test]
fn discord_joins_the_steam_title_of_the_same_number() {
    let mut ids = vec![found("steam:5", Some(5), Confidence::Low, "steam-path")];
    let proc = process("game", None, None);
    absorb_discord(&mut ids, found("discord:9", Some(5), Confidence::Medium, "discord"), &proc);
    assert_eq!(ids.len(), 1);
    assert_eq!(ids[0].id, "steam:5");
    assert_eq!(ids[0].confidence, Confidence::Medium);
    absorb_discord(&mut ids, found("discord:8", None, Confidence::Medium, "discord"), &process("other", None, None));
    assert_eq!(ids.len(), 2);
}

#[test]
fn identities_are_listed_once() {
    let mut ids = Vec::new();
    push_unique(&mut ids, found("a", None, Confidence::High, "test"));
    push_unique(&mut ids, found("b", None, Confidence::High, "test"));
    push_unique(&mut ids, found("a", None, Confidence::Low, "other"));
    assert_eq!(ids.len(), 2);
    assert_eq!(ids[0].confidence, Confidence::High);
    assert!(Confidence::Medium.allows_auto_track());
    assert!(!Confidence::Low.allows_auto_track());
    assert!(!Confidence::Absent.allows_auto_track());
}

#[test]
fn keyed_lists_hold_one_item_for_a_key() {
    let mut list: KeyedList<String> = KeyedList::new();
    list.insert("a".to_string());
    list.insert("b".to_string());
    list.insert("a".to_string());
    assert_eq!(list.len(), 2);
    assert_eq!(list.position("b"), Some(1));
    assert_eq!(list.at(0), "a");
    assert!(list.get("c").is_none());
    list.remove("a");
    assert!(!list.contains("a"));
    assert!(list.contains("b"));
    let gathered = KeyedList::from_items(vec!["x".to_string(), "y".to_string(), "x".to_string()]);
    assert_eq!(gathered.len(), 2);
}

#[test]
fn labels_of_the_systems() {
    assert_eq!(current_os_label(HostOs::Windows), "windows");
    assert_eq!(current_os_label(HostOs::Linux), "linux");
    assert_eq!(current_discord_os(HostOs::Windows), "win32");
    assert_eq!(current_discord_os(HostOs::MacOs), "darwin");
}

#[test]
fn a_reload_keeps_a_catalog_when_none_is_stored() {
    let mut pipeline = empty_pipeline();
    assert!(pipeline.take_detectable(DetectableCatalog::from_entries(win_os_entries(), HOST)));
    assert!(!pipeline.take_detectable(DetectableCatalog::empty()));
    let kept = pipeline.detectable.len();
    pipeline.reload(dota(), LocalCatalog::empty(), DetectableCatalog::empty());
    assert_eq!(pipeline.detectable.len(), kept);
    assert_eq!(pipeline.steam.app_ids(), vec![570]);
}
