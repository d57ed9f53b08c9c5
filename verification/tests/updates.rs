//! Releases, signs of life, log files, and the texts and numbers below them.

use qmonitor::config::UpdateChannel;
use qmonitor::health::{
    is_qmonitor_log, keep_secs, prune_keep_days, prune_max_bytes, LogFile, LogPruner, RuntimeHealth,
    LOG_KEEP_DAYS, LOG_MAX_BYTES,
};
use qmonitor::number::{decimal_of, parse_u32_of, signed_decimal_of};
use qmonitor::order::sort;
use qmonitor::push::HttpStatus;
use qmonitor::split::{lines_of, words_of};
use qmonitor::text::{
    find_text, has_prefix, has_suffix, has_text, same_ignoring_case, to_lower, trim_of,
    with_text_replaced, without_prefix, without_suffixes, CharSet,
};
use qmonitor::time::Timestamp;
use qmonitor::update_check::{
    check_release_url, check_step, dismiss, filter_pending, finish_check, is_allowed_release_url,
    is_canary_tag, is_newer_canary, is_newer_stable, latest_reply, list_reply, pick_canary,
    installed_version, pick_stable, should_skip_network, version_from_tag, CheckStep, GhRelease,
    PendingUpdate, ReleaseReply, UpdateCheckCache, CHECK_INTERVAL_SECS, RELEASES_PATH,
};

fn release(tag: &str, prerelease: bool) -> GhRelease {
    GhRelease {
        tag_name: tag.into(),
        html_url: format!("https://github.com{RELEASES_PATH}/tag/{tag}"),
        prerelease,
    }
}

fn update(tag: &str, version: &str) -> PendingUpdate {
    PendingUpdate {
        tag: tag.into(),
        version: version.into(),
        html_url: format!("https://github.com{RELEASES_PATH}/tag/{tag}"),
    }
}

#[test]
fn canary_tag_shape() {
    assert!(is_canary_tag("v0.0.1-canary.a1b2c3d"));
    assert!(is_canary_tag("0.0.1-canary.deadbee"));
    assert!(!is_canary_tag("canary"));
    assert!(!is_canary_tag("v0.0.1"));
    assert!(!is_canary_tag("v0.0.1-beta.1"));
}

#[test]
fn stable_semver_newer() {
    assert!(is_newer_stable("v0.0.2", "0.0.1"));
    assert!(!is_newer_stable("v0.0.1", "0.0.1"));
    assert!(is_newer_stable("v0.0.1", "0.0.1-canary.abc1234"));
    assert!(!is_newer_stable("v0.0.1", "0.0.2-canary.abc1234"));
    assert!(!is_newer_stable("not-a-version", "0.0.1"));
}

#[test]
fn canary_identity_differs() {
    assert!(is_newer_canary("v0.0.1-canary.aaa1111", "0.0.1"));
    assert!(!is_newer_canary("v0.0.1-canary.aaa1111", "0.0.1-canary.aaa1111"));
    assert!(is_newer_canary("v0.0.1-canary.bbb2222", "0.0.1-canary.aaa1111"));
}

#[test]
fn pick_newest_canary_prerelease() {
    let list = vec![
        release("v0.0.1", false),
        release("v0.0.1-canary.bbbbbbb", true),
        release("v0.0.1-canary.aaaaaaa", true),
        release("canary", true),
    ];
    let picked = pick_canary(&list).expect("canary");
    assert_eq!(picked.tag, "v0.0.1-canary.bbbbbbb");
    assert_eq!(picked.version, "0.0.1-canary.bbbbbbb");
}

#[test]
fn pick_stable_skips_prerelease() {
    assert!(pick_stable(&release("v0.0.1-canary.abc", true)).is_none());
    let picked = pick_stable(&release("v0.0.1", false)).expect("stable");
    assert_eq!(picked.version, "0.0.1");
}

#[test]
fn release_url_allowlist() {
    assert!(is_allowed_release_url(
        "https://github.com/Questory-Labs/qMonitor/releases/tag/v0.0.1"
    ));
    assert!(is_allowed_release_url("https://github.com/Questory-Labs/qMonitor/releases"));
    assert!(!is_allowed_release_url("https://github.com/evil/qMonitor/releases/tag/v0.0.1"));
    assert!(!is_allowed_release_url("https://example.com/releases"));
    assert!(!is_allowed_release_url("file:///tmp/x"));
}

#[test]
fn only_release_pages_are_opened() {
    assert!(check_release_url("https://github.com/Questory-Labs/qMonitor/releases").is_ok());
    assert_eq!(
        check_release_url("https://github.com/Questory-Labs/qMonitor/releases-of-others")
            .unwrap_err(),
        "refusing to open a non-qMonitor GitHub release URL"
    );
    assert!(check_release_url("http://github.com/Questory-Labs/qMonitor/releases").is_err());
    assert!(check_release_url("no address").is_err());
}

#[test]
fn dismissed_tag_is_silent() {
    let pending = update("v0.0.2", "0.0.2");
    assert!(filter_pending(Some(&pending), UpdateChannel::Stable, "0.0.1", Some("v0.0.2"))
        .is_none());
    assert!(filter_pending(Some(&pending), UpdateChannel::Stable, "0.0.1", Some("v0.0.1"))
        .is_some());
}

#[test]
fn skip_network_window() {
    let cache = UpdateCheckCache {
        last_checked_at: 1_000,
        last_channel: Some(UpdateChannel::Stable),
        ..Default::default()
    };
    assert!(should_skip_network(
        &cache,
        UpdateChannel::Stable,
        false,
        1_000 + CHECK_INTERVAL_SECS - 1
    ));
    assert!(!should_skip_network(&cache, UpdateChannel::Stable, true, 1_000 + 1));
    assert!(!should_skip_network(&cache, UpdateChannel::Canary, false, 1_000 + 1));
    assert!(!should_skip_network(
        &cache,
        UpdateChannel::Stable,
        false,
        1_000 + CHECK_INTERVAL_SECS
    ));
}

#[test]
fn cache_skip_and_force_refetch() {
    let mut cache = UpdateCheckCache::default();
    let stable = UpdateChannel::Stable;
    assert!(matches!(check_step(&cache, stable, false, "0.0.1", 1_000), CheckStep::Fetch));
    let first = finish_check(&mut cache, stable, Some(update("v0.0.2", "0.0.2")), "0.0.1", 1_000);
    assert_eq!(first.as_ref().map(|p| p.tag.as_str()), Some("v0.0.2"));

    match check_step(&cache, stable, false, "0.0.1", 1_000 + 60) {
        CheckStep::Answer(skipped) => {
            assert_eq!(skipped.as_ref().map(|p| p.tag.as_str()), Some("v0.0.2"))
        }
        CheckStep::Fetch => panic!("should not hit network"),
    }

    assert!(matches!(check_step(&cache, stable, true, "0.0.1", 1_000 + 60), CheckStep::Fetch));
    let forced =
        finish_check(&mut cache, stable, Some(update("v0.0.3", "0.0.3")), "0.0.1", 1_000 + 60);
    assert_eq!(forced.as_ref().map(|p| p.tag.as_str()), Some("v0.0.3"));
}

#[test]
fn github_list_fixture() {
    let list = vec![
        release("v0.0.2", false),
        release("v0.0.2-canary.abc1234", true),
        release("v0.0.1", false),
    ];
    assert_eq!(pick_canary(&list).unwrap().tag, "v0.0.2-canary.abc1234");
    assert_eq!(pick_stable(&list[0]).unwrap().tag, "v0.0.2");
}

#[test]
fn a_dismissed_update_stays_silent() {
    let mut cache = UpdateCheckCache::default();
    assert!(!dismiss(&mut cache));
    finish_check(&mut cache, UpdateChannel::Stable, Some(update("v9.0.0", "9.0.0")), "0.1.0", 5);
    assert!(dismiss(&mut cache));
    assert_eq!(cache.dismissed_key.as_deref(), Some("v9.0.0"));
    assert!(matches!(
        check_step(&cache, UpdateChannel::Stable, false, "0.1.0", 6),
        CheckStep::Answer(None)
    ));
    let again = Some(update("v9.0.0", "9.0.0"));
    assert!(finish_check(&mut cache, UpdateChannel::Stable, again, "0.1.0", 7).is_none());
    assert!(matches!(
        check_step(&cache, UpdateChannel::Canary, false, "0.1.0", 8),
        CheckStep::Fetch
    ));
    let other = Some(update("v9.0.1", "9.0.1"));
    assert!(finish_check(&mut cache, UpdateChannel::Stable, other, "0.1.0", 9).is_some());
}

#[test]
fn versions_compare_by_their_numbers() {
    assert!(is_newer_stable("v999.0.0", installed_version()));
    assert!(!is_newer_stable(installed_version(), installed_version()));
    assert!(is_newer_stable("v1.10.0", "1.9.9"));
    assert!(!is_newer_stable("v1.9.9", "1.10.0"));
    assert!(is_newer_stable("2.0.0", "1.18446744073709551615.0"));
    assert!(!is_newer_stable("18446744073709551616.0.0", "1.0.0"));
    assert!(!is_newer_stable("01.0.0", "0.0.1"));
    assert!(is_newer_stable("1.0.1-rc.1", "1.0.0"));
    assert!(!is_newer_stable("1.0.0-rc.1", "1.0.0"));
    assert!(!is_newer_stable("1.0.1-", "1.0.0"));
}

#[test]
fn replies_of_the_release_list() {
    let status = |code: u16, shown: &str| HttpStatus { code, shown: shown.into() };
    assert!(matches!(latest_reply(&status(404, "404 Not Found")), ReleaseReply::Nothing));
    assert!(matches!(latest_reply(&status(200, "200 OK")), ReleaseReply::Read));
    assert!(matches!(
        latest_reply(&status(500, "500 Internal Server Error")),
        ReleaseReply::Failed(e) if e == "GitHub latest release HTTP 500 Internal Server Error"
    ));
    assert!(list_reply(&status(200, "200 OK")).is_ok());
    assert_eq!(
        list_reply(&status(404, "404 Not Found")).unwrap_err(),
        "GitHub releases HTTP 404 Not Found"
    );
    assert_eq!(version_from_tag("v1.2.3"), "1.2.3");
    assert_eq!(version_from_tag("1.2.3"), "1.2.3");
}

// ---------------------------------------------------------------------------
// Signs of life
// ---------------------------------------------------------------------------

#[test]
fn loop_alive_false_without_detect() {
    let h = RuntimeHealth::default();
    assert!(!h.loop_alive(3));
}

#[test]
fn loop_alive_true_when_recent() {
    let h = RuntimeHealth { last_detect_at: Some(Timestamp::now()), ..Default::default() };
    assert!(h.loop_alive(3));
}

#[test]
fn tooltip_includes_db_state() {
    let h = RuntimeHealth {
        last_detect_at: Some(Timestamp::now()),
        db_ok: true,
        ..Default::default()
    };
    let tip = h.tray_tooltip(3);
    assert!(tip.contains("DB ok"), "{tip}");
    assert!(tip.contains("qMonitor"), "{tip}");
}

#[test]
fn tooltips_in_full() {
    let now = Timestamp::from_nanos(100_000_000_000).unwrap();
    let mut h = RuntimeHealth::default();
    assert_eq!(h.tray_tooltip_at(3, now), "qMonitor · poll — · DB down · loop stuck");
    h.db_ok = true;
    h.last_detect_at = Some(now.plus_seconds(-8));
    assert!(h.loop_alive_at(3, now));
    assert_eq!(h.tray_tooltip_at(3, now), "qMonitor · poll 8s ago · DB ok");
    h.last_detect_at = Some(now.plus_seconds(-9));
    assert!(!h.loop_alive_at(3, now));
    assert_eq!(h.tray_tooltip_at(3, now), "qMonitor · poll 9s ago · DB ok · loop stuck");
    assert!(!h.loop_alive_at(0, now));
}

// ---------------------------------------------------------------------------
// Log files
// ---------------------------------------------------------------------------

fn log(path: &str, modified: i128, len: u64) -> LogFile {
    LogFile { path: path.into(), modified, len }
}

fn pruned(files: Vec<LogFile>, keep_days: u64, max_bytes: u64, cutoff: i128) -> Vec<String> {
    let mut pruner = LogPruner::new(&files, keep_days, max_bytes, cutoff);
    let mut gone: Vec<String> = pruner.expired_files().iter().map(|f| f.path.clone()).collect();
    while let Some(file) = pruner.next_file() {
        gone.push(file.path.clone());
        pruner.note_removed(true);
    }
    gone
}

#[test]
fn prune_deletes_oversized_logs_keeps_other_files() {
    assert!(is_qmonitor_log("qmonitor.log.2026-01-01"));
    assert!(!is_qmonitor_log("notes.txt"));
    let files = vec![log("qmonitor.log.2026-01-01", 1_000, 200)];
    assert_eq!(pruned(files, 3, 50, 0), vec!["qmonitor.log.2026-01-01".to_string()]);
}

#[test]
fn prune_zero_days_deletes_all_logs() {
    let files = vec![log("qmonitor.log", 1_000, 1)];
    assert_eq!(pruned(files, 0, 0, 0), vec!["qmonitor.log".to_string()]);
}

#[test]
fn prune_deletes_old_logs() {
    let files = vec![log("qmonitor.log.old", 100, 100), log("qmonitor.log", 900, 100)];
    assert_eq!(pruned(files, 3, LOG_MAX_BYTES, 500), vec!["qmonitor.log.old".to_string()]);
    assert_eq!(keep_secs(3), 259_200);
    assert_eq!(keep_secs(u64::MAX), u64::MAX);
}

#[test]
fn the_oldest_logs_go_first() {
    let files = vec![log("c", 30, 40), log("a", 10, 40), log("b", 20, 40)];
    assert_eq!(pruned(files, 3, 50, 0), vec!["a".to_string(), "b".to_string()]);
    let files = vec![log("a", 10, 40), log("b", 20, 40), log("c", 30, 40)];
    let mut pruner = LogPruner::new(&files, 3, 100, 0);
    assert_eq!(pruner.next_file().unwrap().path, "a");
    pruner.note_removed(false);
    assert_eq!(pruner.next_file().unwrap().path, "b");
    pruner.note_removed(true);
    assert!(pruner.next_file().is_none());
    assert_eq!(prune_keep_days(true), LOG_KEEP_DAYS);
    assert_eq!(prune_keep_days(false), 0);
    assert_eq!(prune_max_bytes(true), LOG_MAX_BYTES);
    assert_eq!(prune_max_bytes(false), 0);
}

// ---------------------------------------------------------------------------
// Texts and numbers
// ---------------------------------------------------------------------------

#[test]
fn texts() {
    assert_eq!(to_lower("AbC É"), "abc É");
    assert!(same_ignoring_case("AbC", "aBc"));
    assert_eq!(trim_of(" \t a b \n", CharSet::White), "a b");
    assert_eq!(trim_of("\"a\"\"", CharSet::Quote), "a");
    assert_eq!(find_text("héllo", "llo"), Some(2));
    assert!(has_text("abc", ""));
    assert!(has_prefix("abc", "ab"));
    assert!(has_suffix("abc", "bc"));
    assert_eq!(without_prefix("vv1", "v").as_deref(), Some("v1"));
    assert!(without_prefix("1", "v").is_none());
    assert_eq!(without_suffixes("a.exe.exe", ".exe"), "a");
    assert_eq!(with_text_replaced("a\\\\b\\\\c", "\\\\", "\\"), "a\\b\\c");
    assert_eq!(lines_of("a\r\nb\n\nc"), vec!["a", "b", "", "c"]);
    assert_eq!(words_of("  a \t b\n"), vec!["a", "b"]);
}

#[test]
fn numbers() {
    assert_eq!(decimal_of(0), "0");
    assert_eq!(decimal_of(u64::MAX), "18446744073709551615");
    assert_eq!(signed_decimal_of(i64::MIN), "-9223372036854775808");
    assert_eq!(parse_u32_of("4294967295"), Some(u32::MAX));
    assert_eq!(parse_u32_of("+7"), Some(7));
    assert!(parse_u32_of("4294967296").is_none());
    assert!(parse_u32_of("").is_none());
    assert!(parse_u32_of("-1").is_none());
}

#[test]
fn sorting_keeps_the_order_of_equals() {
    let items: Vec<(i128, u32)> = vec![(2, 0), (1, 1), (2, 2), (1, 3), (0, 4)];
    let order: Vec<u32> = sort(items).into_iter().map(|(_, i)| i).collect();
    assert_eq!(order, vec![4, 1, 3, 0, 2]);
}
