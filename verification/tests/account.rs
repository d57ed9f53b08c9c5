//! Settings, tokens, the login, the device and what is pushed.

use qmonitor::auth::{
    apply_health, auth_state, begin_login_attempt, callback_from_pairs, check_exchange,
    check_health_status, check_refresh, current_attempt, exchange_call, get_access_token,
    complete_login, get_refresh_token, is_logged_in, keyring_token, login_callback_of,
    parse_callback_code, probe_address, refresh_call, revoke_call, start_login, HealthBody, KeyringRead, LoginAttempt,
    TokenCache,
};
use qmonitor::config::{
    AppConfig, DetectedService, UpdateChannel, DEFAULT_DETECTABLE_URL, KEYRING_ACCESS,
    KEYRING_SESSION,
};
use qmonitor::db::{PushStatus, SessionRow};
use qmonitor::device::{device_id_of, stored_salt};
use qmonitor::digest::text_digest_of;
use qmonitor::oauth_loopback::{
    after_callback, after_completion, body_of, callback_html, first_step, html_escape, login_step, may_listen,
    parse_request_line, success_html, LoginStep, BAD_REQUEST, REDIRECT_URI,
};
use qmonitor::pkce::{challenge_s256, generate_verifier, verifier_of};
use qmonitor::push::{
    after_post, after_retry, bearer, HttpStatus, PushStep, SessionPayload, CONNECT_TIMEOUT,
    POOL_IDLE_TIMEOUT, REQUEST_TIMEOUT,
};
use qmonitor::random::{new_id, new_id_bytes};
use qmonitor::time::{Timestamp, FIRST_SECOND, LAST_SECOND, NANOS};

fn status(code: u16, shown: &str) -> HttpStatus {
    HttpStatus { code, shown: shown.into() }
}

fn known_service() -> AppConfig {
    AppConfig {
        base_url: Some("https://q.example".into()),
        api_root: Some("https://q.example/api/".into()),
        web_origin: Some("https://q.example".into()),
        ..AppConfig::default()
    }
}

// ---------------------------------------------------------------------------
// Settings
// ---------------------------------------------------------------------------

#[test]
fn settings_begin_with_stable_releases() {
    let cfg = AppConfig::default();
    assert_eq!(cfg.update_channel, UpdateChannel::Stable);
    assert_eq!(UpdateChannel::default(), UpdateChannel::Stable);
    assert_eq!(cfg.poll_interval_secs, 3);
    assert_eq!(cfg.retention_acked_days, 30);
    assert!(!cfg.minimize_to_tray);
    assert!(!cfg.close_to_tray);
    assert!(!cfg.is_onboarded());
    assert!(cfg.webhook_url().is_none());
}

#[test]
fn addresses_of_the_service() {
    let cfg = known_service();
    assert_eq!(cfg.webhook_url().unwrap(), "https://q.example/api/webhooks/qmonitor");
    assert_eq!(cfg.token_url().unwrap(), "https://q.example/api/oauth/qmonitor/token");
    assert_eq!(cfg.revoke_url().unwrap(), "https://q.example/api/oauth/qmonitor/revoke");
    assert!(cfg.is_onboarded());
    assert!(cfg.has_base_url());
}

#[test]
fn the_address_for_consent_holds_the_request() {
    let cfg = known_service();
    let url = cfg.authorize_url(REDIRECT_URI, "st", "ch", "dev").unwrap();
    assert_eq!(
        url,
        "https://q.example/oauth/qmonitor/authorize?response_type=code&client_id=qmonitor\
         &redirect_uri=http%3A%2F%2F127.0.0.1%3A58473%2Fcallback&state=st&scope=qmonitor\
         &code_challenge=ch&code_challenge_method=S256&device_id=dev"
    );
    let broken = AppConfig { web_origin: Some("no address".into()), ..AppConfig::default() };
    assert!(broken.authorize_url(REDIRECT_URI, "st", "ch", "dev").is_none());
    assert!(AppConfig::default().authorize_url(REDIRECT_URI, "st", "ch", "dev").is_none());
}

#[test]
fn settings_have_defaults() {
    let mut cfg = AppConfig::default();
    assert_eq!(cfg.resolved_db_path("/conf/qmonitor.db"), "/conf/qmonitor.db");
    cfg.db_path = Some("/data/q.db".into());
    assert_eq!(cfg.resolved_db_path("/conf/qmonitor.db"), "/data/q.db");
    assert_eq!(cfg.resolved_detectable_url(), DEFAULT_DETECTABLE_URL);
    cfg.detectable_url = Some("  ".into());
    assert_eq!(cfg.resolved_detectable_url(), DEFAULT_DETECTABLE_URL);
    cfg.detectable_url = Some(" https://d.example ".into());
    assert_eq!(cfg.resolved_detectable_url(), "https://d.example");
    assert_eq!(cfg.poll_secs(), 3);
    cfg.poll_interval_secs = 0;
    assert_eq!(cfg.poll_secs(), 1);
}

#[test]
fn settings_change() {
    let cfg = known_service();
    let mut next = cfg.clone();
    assert_eq!(cfg.changes_to(&next), (false, false));
    next.detectable_url = Some("https://d.example".into());
    next.set_dev_token("tok".into());
    assert_eq!(next.dev_access_token.as_deref(), Some("tok"));
    assert!(next.names_service());
    next.clear_service();
    assert!(!next.is_onboarded());
}

// ---------------------------------------------------------------------------
// Tokens
// ---------------------------------------------------------------------------

#[test]
fn cache_survives_without_keyring_and_clears() {
    let mut cache = TokenCache::new();
    cache.cache_put(Some("access-1"), Some("refresh-1"));
    let cfg = AppConfig::default();
    assert_eq!(get_access_token(&cfg, &cache).as_deref(), Some("access-1"));
    assert_eq!(get_refresh_token(&cache).as_deref(), Some("refresh-1"));
    cache.cache_clear();
    assert!(cache.keyring_hydrated);
    assert!(get_access_token(&cfg, &cache).is_none());
    assert!(get_refresh_token(&cache).is_none());
}

#[test]
fn the_keyring_is_read_once() {
    let mut cache = TokenCache::new();
    cache.cache_put(None, Some("mine"));
    cache.hydrate_keyring_once(Ok(Some("a".into())), Ok(Some("r".into())));
    assert_eq!(cache.access.as_deref(), Some("a"));
    assert_eq!(cache.refresh.as_deref(), Some("mine"));
    cache.hydrate_keyring_once(Ok(Some("b".into())), Err("locked".into()));
    assert_eq!(cache.access.as_deref(), Some("a"));
    assert!(keyring_token(KeyringRead::Found("".into())).unwrap().is_none());
    assert_eq!(keyring_token(KeyringRead::Found("t".into())).unwrap().as_deref(), Some("t"));
    assert!(keyring_token(KeyringRead::Missing).unwrap().is_none());
    assert_eq!(keyring_token(KeyringRead::Failed("locked".into())).unwrap_err(), "locked");
}

#[test]
fn stored_tokens_go_to_the_keyring() {
    let mut cache = TokenCache::new();
    let secrets = cache.store_tokens("a", Some("r"));
    assert_eq!(secrets, vec![(KEYRING_ACCESS, "a".to_string()), (KEYRING_SESSION, "r".to_string())]);
    let secrets = cache.store_tokens("b", None);
    assert_eq!(secrets, vec![(KEYRING_ACCESS, "b".to_string())]);
    assert_eq!(cache.refresh.as_deref(), Some("r"));
}

#[test]
fn a_development_token_comes_first() {
    let mut cfg = known_service();
    let mut cache = TokenCache::new();
    cache.cache_put(Some("access"), None);
    cfg.dev_access_token = Some("".into());
    assert_eq!(get_access_token(&cfg, &cache).as_deref(), Some("access"));
    cfg.dev_access_token = Some("dev".into());
    assert_eq!(get_access_token(&cfg, &cache).as_deref(), Some("dev"));
    let shown = auth_state(&cfg, &cache).unwrap();
    assert!(shown.has_access_token);
    assert!(!shown.has_session_token);
    assert!(auth_state(&AppConfig::default(), &cache).is_none());
}

#[test]
fn the_service_tells_what_it_is() {
    let mut cfg = AppConfig { base_url: Some(" https://q.example/ ".into()), ..AppConfig::default() };
    let (base, url) = probe_address(&cfg).unwrap();
    assert_eq!(base, "https://q.example");
    assert_eq!(url, "https://q.example/api/health");
    assert!(probe_address(&AppConfig::default()).is_err());
    assert!(check_health_status(&status(200, "200 OK")).is_ok());
    assert_eq!(
        check_health_status(&status(503, "503 Service Unavailable")).unwrap_err(),
        "health HTTP 503 Service Unavailable"
    );
    let body = |ok: bool, service: &str, web: Option<&str>| HealthBody {
        ok,
        service: service.into(),
        web_origin: web.map(str::to_string),
    };
    assert_eq!(apply_health(&mut cfg, &base, &body(true, "fe", None)).unwrap(), "fe");
    assert_eq!(cfg.service, Some(DetectedService::Fe));
    assert_eq!(cfg.api_root.as_deref(), Some("https://q.example/api"));
    assert!(cfg.is_onboarded());
    assert_eq!(
        apply_health(&mut cfg, &base, &body(true, "be", Some("https://w.example/"))).unwrap(),
        "be"
    );
    assert_eq!(cfg.web_origin.as_deref(), Some("https://w.example"));
    assert_eq!(cfg.api_root.as_deref(), Some("https://q.example"));
    assert_eq!(
        apply_health(&mut cfg, &base, &body(true, "be", Some(" "))).unwrap_err(),
        "BE health missing webOrigin"
    );
    assert_eq!(
        apply_health(&mut cfg, &base, &body(false, "fe", None)).unwrap_err(),
        "health ok=false"
    );
    assert_eq!(
        apply_health(&mut cfg, &base, &body(true, "xx", None)).unwrap_err(),
        "unknown service `xx`"
    );
}

fn attempt() -> LoginAttempt {
    LoginAttempt { state: "st".into(), verifier: "ver".into(), device_id: "dev".into() }
}

#[test]
fn codes_are_exchanged_for_tokens() {
    let cfg = known_service();
    let call = exchange_call(&cfg, &attempt(), "code", "st").unwrap();
    assert_eq!(call.url, "https://q.example/api/oauth/qmonitor/token");
    let field = |name: &str| {
        call.fields.iter().find(|(k, _)| k == name).map(|(_, v)| v.as_str()).unwrap()
    };
    assert_eq!(field("grant_type"), "authorization_code");
    assert_eq!(field("code"), "code");
    assert_eq!(field("redirect_uri"), REDIRECT_URI);
    assert_eq!(field("client_id"), "qmonitor");
    assert_eq!(field("code_verifier"), "ver");
    assert_eq!(field("device_id"), "dev");
    assert_eq!(exchange_call(&cfg, &attempt(), "code", "other").unwrap_err(), "state mismatch");
    assert_eq!(
        exchange_call(&AppConfig::default(), &attempt(), "code", "st").unwrap_err(),
        "api root not configured"
    );
    assert!(check_exchange(&status(200, "200 OK"), "").is_ok());
    assert_eq!(
        check_exchange(&status(400, "400 Bad Request"), "nope").unwrap_err(),
        "token HTTP 400 Bad Request: nope"
    );
}

#[test]
fn tokens_are_refreshed_and_revoked() {
    let cfg = known_service();
    let device = Ok("dev".to_string());
    let call = refresh_call(&cfg, &Some("r".into()), &device).unwrap();
    assert!(call.fields.contains(&("grant_type".to_string(), "refresh_token".to_string())));
    assert!(call.fields.contains(&("refresh_token".to_string(), "r".to_string())));
    assert_eq!(refresh_call(&cfg, &None, &device).unwrap_err(), "no refresh token");
    assert_eq!(
        refresh_call(&cfg, &Some("r".into()), &Err("no salt".into())).unwrap_err(),
        "no salt"
    );
    assert_eq!(
        refresh_call(&AppConfig::default(), &Some("r".into()), &device).unwrap_err(),
        "api root not configured"
    );
    assert!(check_refresh(&status(200, "200 OK")).is_ok());
    assert_eq!(
        check_refresh(&status(401, "401 Unauthorized")).unwrap_err(),
        "refresh HTTP 401 Unauthorized"
    );
    let mut cache = TokenCache::new();
    assert!(revoke_call(&cfg, &cache, &None).is_none());
    cache.cache_put(Some("a"), Some("r"));
    let call = revoke_call(&cfg, &cache, &Some("dev".into())).unwrap();
    assert_eq!(call.url, "https://q.example/api/oauth/qmonitor/revoke");
    assert!(call.fields.contains(&("token".to_string(), "r".to_string())));
    assert!(call.fields.contains(&("token_type_hint".to_string(), "refresh_token".to_string())));
    let call = revoke_call(&cfg, &cache, &None).unwrap();
    assert_eq!(call.fields.len(), 2);
    assert!(revoke_call(&AppConfig::default(), &cache, &None).is_none());
}

#[test]
fn parses_code_callback() {
    let (c, s) =
        parse_callback_code("http://127.0.0.1:58473/callback?code=abc&state=xyz").unwrap();
    assert_eq!(c, "abc");
    assert_eq!(s, "xyz");
}

#[test]
fn callbacks_without_a_code_are_refused() {
    let url = "http://127.0.0.1:58473/callback";
    assert_eq!(
        parse_callback_code(&format!("{url}?error=access%20denied&code=a&state=b")).unwrap_err(),
        "oauth error: access denied"
    );
    assert_eq!(
        parse_callback_code(&format!("{url}?state=b")).unwrap_err(),
        "code missing in callback"
    );
    assert_eq!(
        parse_callback_code(&format!("{url}?code=a")).unwrap(),
        ("a".to_string(), String::new())
    );
    assert_eq!(
        parse_callback_code("callback?code=a").unwrap_err(),
        "relative URL without a base"
    );
    let pair = |k: &str, v: &str| (k.to_string(), v.to_string());
    let (code, state) =
        callback_from_pairs(&vec![pair("code", "1"), pair("state", "s"), pair("code", "2")]).unwrap();
    assert_eq!(code, "2");
    assert_eq!(state.as_deref(), Some("s"));
    let (code, state) = callback_from_pairs(&vec![pair("code", "1")]).unwrap();
    assert_eq!(code, "1");
    assert!(state.is_none());
    assert_eq!(
        login_callback_of(&format!("{url}?code=a")).unwrap_err(),
        "state missing in callback"
    );
    assert_eq!(
        login_callback_of(&format!("{url}?code=a&state=")).unwrap(),
        ("a".to_string(), String::new())
    );
}

#[test]
fn a_login_attempt_is_fresh() {
    let (a, challenge, device) = begin_login_attempt("dev".into());
    let (b, _, _) = begin_login_attempt("dev".into());
    assert_ne!(a.state, b.state);
    assert_ne!(a.verifier, b.verifier);
    assert_eq!(a.state.len(), 36);
    assert_eq!(a.device_id, "dev");
    assert_eq!(device, "dev");
    assert_eq!(challenge, challenge_s256(&a.verifier));
    assert_eq!(current_attempt(&Some(a.clone())).unwrap().state, a.state);
    assert_eq!(current_attempt(&None).unwrap_err(), "no login attempt");
    assert_ne!(new_id(), new_id());
    assert_eq!(new_id().as_bytes()[14], b'4');
    let bytes = new_id_bytes();
    assert_eq!(bytes.len(), 16);
    assert_eq!(bytes[6] >> 4, 4);
    assert_eq!(bytes[8] >> 6, 2);
}

#[test]
fn a_login_begins_at_the_service() {
    let cfg = known_service();
    let (a, url) = start_login(&cfg, Ok("dev".into())).unwrap();
    assert_eq!(
        url,
        cfg.authorize_url(REDIRECT_URI, &a.state, &challenge_s256(&a.verifier), "dev").unwrap()
    );
    assert_eq!(
        start_login(&AppConfig::default(), Ok("dev".into())).unwrap_err(),
        "Set and verify a Questory URL first"
    );
    assert_eq!(start_login(&cfg, Err("no salt".into())).unwrap_err(), "no salt");
    let broken = AppConfig { web_origin: Some("nowhere".into()), ..known_service() };
    assert_eq!(start_login(&broken, Ok("dev".into())).unwrap_err(), "web origin missing");
}

#[test]
fn a_pasted_address_completes_a_login() {
    let url = "http://127.0.0.1:58473/callback?code=abc&state=xyz";
    let (a, code, state) = complete_login(&Some(attempt()), url).unwrap();
    assert_eq!(a.verifier, "ver");
    assert_eq!(code, "abc");
    assert_eq!(state, "xyz");
    assert_eq!(
        complete_login(&None, url).unwrap_err(),
        "no login attempt — click Log in first"
    );
    assert_eq!(
        complete_login(&Some(attempt()), "http://127.0.0.1:58473/callback?code=abc").unwrap_err(),
        "state missing in callback"
    );
    let (a, code, state) =
        complete_login(&Some(attempt()), "http://127.0.0.1:58473/callback?code=abc&state=").unwrap();
    assert_eq!(code, "abc");
    assert_eq!(
        exchange_call(&known_service(), &a, &code, &state).unwrap_err(),
        "state mismatch"
    );
}

#[test]
fn a_login_needs_a_service_and_a_token() {
    let mut cache = TokenCache::new();
    assert!(!is_logged_in(&known_service(), &cache));
    cache.store_tokens("a", None);
    assert!(is_logged_in(&known_service(), &cache));
    assert!(!is_logged_in(&AppConfig::default(), &cache));
}

// ---------------------------------------------------------------------------
// The device
// ---------------------------------------------------------------------------

#[test]
fn device_id_is_hex_64() {
    let id = device_id_of("0123456789abcdef", Some("desk"), "linux");
    assert_eq!(id.len(), 64);
    assert!(id.chars().all(|c| c.is_ascii_hexdigit()));
    assert_eq!(id, text_digest_of("0123456789abcdef|desk|linux"));
    assert_eq!(
        device_id_of("0123456789abcdef", None, "linux"),
        text_digest_of("0123456789abcdef|unknown|linux")
    );
}

#[test]
fn a_salt_has_a_length() {
    assert_eq!(stored_salt(" 0123456789abcdef\n").as_deref(), Some("0123456789abcdef"));
    assert!(stored_salt("0123456789abcde").is_none());
    assert!(stored_salt("éééééééé").is_some());
    let id = new_id();
    assert_eq!(stored_salt(&id), Some(id));
}

#[test]
fn digests_of_texts() {
    assert_eq!(
        text_digest_of("abc"),
        "ba7816bf8f01cfea414140de5dae2223b00361a396177a9cb410ff61f20015ad"
    );
}

// ---------------------------------------------------------------------------
// Proof keys
// ---------------------------------------------------------------------------

#[test]
fn challenge_is_stable() {
    let v = "a".repeat(43);
    let a = challenge_s256(&v);
    let b = challenge_s256(&v);
    assert_eq!(a, b);
    assert!(a.len() >= 43);
}

#[test]
fn challenge_of_a_known_verifier() {
    assert_eq!(
        challenge_s256("dBjftJeZ4CVP-mB92K27uhbUJU1p1r_wW1gFWFOEjXk"),
        "E9Melhoa2OwvFrEMTJguCHaoeK1t8URWbuGJSstw-cM"
    );
}

#[test]
fn verifiers_are_unreserved_text() {
    let v = generate_verifier();
    assert_eq!(v.len(), 43);
    assert!(v.chars().all(|c| c.is_ascii_alphanumeric() || c == '-' || c == '_'));
    assert_ne!(v, generate_verifier());
    assert_eq!(verifier_of(&vec![0xff; 16], &vec![0xff; 16]), format!("{}8", "_".repeat(42)));
}

// ---------------------------------------------------------------------------
// What is pushed
// ---------------------------------------------------------------------------

fn ended_row() -> SessionRow {
    SessionRow {
        id: "abc".into(),
        identity_id: "steam:570".into(),
        title: "Dota 2".into(),
        steam_app_id: Some(570),
        exe: Some("dota2.exe".into()),
        source: "steam".into(),
        started_at: Timestamp::now(),
        ended_at: Some(Timestamp::now()),
        duration_secs: Some(120),
        push_status: PushStatus::Pending,
        acked_at: None,
        retry_count: 0,
        next_retry_at: None,
        last_error: None,
    }
}

#[test]
fn payload_from_ended_row() {
    let p = SessionPayload::from_row(&ended_row(), "linux", Some("desk")).unwrap();
    assert_eq!(p.schema_version, 1);
    assert_eq!(p.steam_app_id, Some(570));
    assert_eq!(p.duration_secs, 120);
}

#[test]
fn payload_tells_times_and_host() {
    let mut row = ended_row();
    row.started_at = Timestamp::parse("2026-01-02T03:04:05Z").unwrap();
    row.ended_at = Some(row.started_at.plus_seconds(60));
    row.duration_secs = None;
    assert_eq!(SessionPayload::from_row(&row, "linux", None).unwrap().duration_secs, 0);
    let p = SessionPayload::from_row(&row, "linux", None).unwrap();
    assert_eq!(p.session_id, "abc");
    assert_eq!(p.started_at, "2026-01-02T03:04:05+00:00");
    assert_eq!(p.ended_at, "2026-01-02T03:05:05+00:00");
    assert_eq!(p.host.os, "linux");
    assert_eq!(p.host.hostname, "unknown");
    row.ended_at = None;
    assert!(SessionPayload::from_row(&row, "linux", None).is_none());
}

#[test]
fn http_client_builds_with_timeouts() {
    assert_eq!(CONNECT_TIMEOUT, 8);
    assert_eq!(REQUEST_TIMEOUT, 15);
    assert_eq!(POOL_IDLE_TIMEOUT, 60);
}

#[test]
fn a_refused_token_is_refreshed_once() {
    assert!(matches!(after_post(&status(200, "200 OK")), PushStep::Done(Ok(()))));
    assert!(matches!(after_post(&status(401, "401 Unauthorized")), PushStep::Refresh));
    assert!(matches!(
        after_post(&status(500, "500 Internal Server Error")),
        PushStep::Done(Err(_))
    ));
    assert!(after_retry(&status(204, "204 No Content")).is_ok());
    assert!(after_retry(&status(401, "401 Unauthorized")).is_err());
    assert!(status(299, "299").succeeded());
    assert!(!status(300, "300").succeeded());
    assert_eq!(bearer("tok"), "Bearer tok");
}

// ---------------------------------------------------------------------------
// Times
// ---------------------------------------------------------------------------

#[test]
fn the_first_and_the_last_time_can_be_written() {
    let first = FIRST_SECOND as i128 * NANOS;
    let last = (LAST_SECOND as i128 + 1) * NANOS - 1;
    assert!(Timestamp::from_nanos(first).unwrap().to_rfc3339().starts_with("-262143-01-01T00:00:00"));
    assert!(Timestamp::from_nanos(last).unwrap().to_rfc3339().starts_with("+262142-12-31T23:59:59"));
    assert!(Timestamp::from_nanos(first - 1).is_none());
    assert!(Timestamp::from_nanos(last + 1).is_none());
}

#[test]
fn leap_seconds_are_kept() {
    let leap = Timestamp::parse("2016-12-31T23:59:60.25Z").unwrap();
    assert_eq!(leap.to_rfc3339(), "2016-12-31T23:59:60.250+00:00");
    assert_eq!(leap.parts(), (1_483_228_799, 1_250_000_000));
    assert_eq!(Timestamp::parse(&leap.to_rfc3339()).unwrap(), leap);
    let next = Timestamp::parse("2017-01-01T00:00:00Z").unwrap();
    let last = Timestamp::parse("2016-12-31T23:59:59Z").unwrap();
    assert!(last.is_before(&leap) && leap.is_before(&next));
    assert_eq!(leap.nanos_since(&last), 1_250_000_000);
    assert_eq!(next.nanos_since(&leap), -250_000_000);
    assert_eq!(leap.plus_seconds(30).to_rfc3339(), "2017-01-01T00:00:29.250+00:00");
    assert_eq!(leap.plus_seconds(-1).to_rfc3339(), "2016-12-31T23:59:59.250+00:00");
    assert_eq!(leap.plus_seconds(0), leap);
    let noon = Timestamp::parse("2016-07-08T03:05:60.5Z").unwrap();
    let later = Timestamp::parse("2016-07-08T03:06:10Z").unwrap();
    assert_eq!(later.nanos_since(&noon), 10_500_000_000);
    assert_eq!(noon.nanos_since(&later), -10_500_000_000);
    assert_eq!(noon.plus_seconds_until(30, &later), later);
    assert_eq!(noon.plus_seconds_until(5, &later), noon.plus_seconds(5));
}

#[test]
fn times_are_written_and_read() {
    let t = Timestamp::parse("1996-12-19T16:39:57.25-08:00").unwrap();
    assert_eq!(t.nanos(), 851_042_397_250_000_000);
    assert_eq!(t.to_rfc3339(), "1996-12-20T00:39:57.250+00:00");
    assert_eq!(Timestamp::parse(&t.to_rfc3339()).unwrap(), t);
    let before = Timestamp::from_nanos(-1).unwrap();
    assert_eq!(before.to_rfc3339(), "1969-12-31T23:59:59.999999999+00:00");
    assert!(before.is_before(&t));
    assert_eq!(t.nanos_since(&before), 851_042_397_250_000_001);
    assert!(Timestamp::parse("yesterday").is_err());
    assert!(Timestamp::from_nanos(i128::MAX).is_none());
    assert!(t.can_add_seconds(60));
    assert!(!t.can_add_seconds(i64::MAX));
    assert!(t.is_before(&Timestamp::now()));
}

// ---------------------------------------------------------------------------
// The listener for the login
// ---------------------------------------------------------------------------

#[test]
fn success_page_uses_qmonitor_mark_and_return_button() {
    let html = success_html();
    assert!(html.contains("aria-label=\"qMonitor\""));
    assert!(html.contains("fill=\"#202023\""));
    assert!(html.contains("Return to qMonitor"));
    assert!(html.contains("<button"));
    assert!(!html.contains("class=\"q\""));
}

#[test]
fn callback_page_uses_pulsing_qmonitor_mark() {
    let html = callback_html();
    assert!(html.contains("aria-label=\"qMonitor\""));
    assert!(html.contains("class=\"mark pulse\""));
    assert!(html.contains("Finishing login…"));
    assert!(!html.contains(">q</div>"));
}

#[test]
fn one_listener_at_a_time() {
    assert!(may_listen(false).is_ok());
    assert_eq!(may_listen(true).unwrap_err(), "login listener already running");
}

#[test]
fn requests_are_read() {
    assert_eq!(
        parse_request_line("GET /callback?code=a HTTP/1.1\r\nHost: x\r\n\r\n"),
        ("GET".to_string(), "/callback?code=a".to_string())
    );
    assert_eq!(parse_request_line(""), ("GET".to_string(), "/".to_string()));
    assert_eq!(body_of("POST / HTTP/1.1\r\n\r\n{}").as_deref(), Some("{}"));
    assert!(body_of("POST / HTTP/1.1\r\n").is_none());
}

#[test]
fn the_listener_answers() {
    match first_step("GET /callback?code=a&state=b HTTP/1.1\r\n\r\n") {
        LoginStep::Exchange { code, state } => {
            assert_eq!(code, "a");
            assert_eq!(state, "b");
        }
        other => panic!("{other:?}"),
    }
    assert!(matches!(
        first_step("GET /callback HTTP/1.1\r\n\r\n"),
        LoginStep::Reply(r) if r.starts_with("HTTP/1.1 200 OK") && r.contains("Finishing login")
    ));
    for line in [
        "GET /callback?code=a HTTP/1.1\r\n\r\n",
        "GET /callback?code=a&error=denied&state=b HTTP/1.1\r\n\r\n",
        "GET /callback?xcode=a&state=b HTTP/1.1\r\n\r\n",
    ] {
        assert!(matches!(
            first_step(line),
            LoginStep::Reply(r) if r.starts_with("HTTP/1.1 200 OK") && r.contains("Finishing login")
        ));
    }
    assert!(matches!(
        first_step("POST /callback/complete HTTP/1.1\r\n\r\n {\"code\":1} "),
        LoginStep::ReadBody(b) if b == "{\"code\":1}"
    ));
    assert!(matches!(
        first_step("POST /callback/complete HTTP/1.1\r\n"),
        LoginStep::Reply(r) if r == BAD_REQUEST
    ));
    assert!(matches!(
        first_step("GET /favicon.ico HTTP/1.1\r\n\r\n"),
        LoginStep::Reply(r) if r.starts_with("HTTP/1.1 404 Not Found")
    ));
    assert!(matches!(
        login_step("GET", "/callback/complete", None, None),
        LoginStep::Reply(r) if r.ends_with("not found")
    ));
}

#[test]
fn the_listener_stops_after_a_login() {
    let (reply, done) = after_callback(&Ok(()));
    assert!(done);
    let html = success_html();
    assert_eq!(
        reply,
        format!(
            "HTTP/1.1 200 OK\r\nContent-Type: text/html; charset=utf-8\r\nContent-Length: {}\r\nConnection: close\r\n\r\n{}",
            html.len(),
            html
        )
    );
    let (reply, done) = after_callback(&Err("a <b> & c".into()));
    assert!(!done);
    assert!(reply.starts_with("HTTP/1.1 400 Bad Request"));
    assert!(reply.contains("Login failed: a &lt;b&gt; &amp; c"));
    assert_eq!(after_completion(&None), (BAD_REQUEST.to_string(), false));
    assert_eq!(after_completion(&Some(Err("x".into()))), (BAD_REQUEST.to_string(), false));
    assert!(after_completion(&Some(Ok(()))).1);
    assert_eq!(html_escape("<&>"), "&lt;&amp;&gt;");
}
