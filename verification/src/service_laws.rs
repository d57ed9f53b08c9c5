//! What holds of the addresses of the service, of tokens and logins, and of the pages
//! that finish a login.

use vstd::prelude::*;

use crate::auth;
use crate::auth::{HealthBody, KeyringRead, LoginAttempt, TokenCache};
use crate::config;
use crate::config::{AppConfig, DetectedService};
use crate::device;
use crate::digest;
use crate::number;
use crate::oauth_loopback;
use crate::oauth_loopback::StepView;
use crate::pkce;
use crate::split;
use crate::text;
use crate::text::CharSet;
use crate::text_laws;
use crate::web;

verus! {

// ---------------------------------------------------------------------------
// Addresses
// ---------------------------------------------------------------------------

/// An address below a root is the root and the path; slashes behind the root make no
/// difference, and without a root there is none.
pub proof fn law_below(root: String, bare: Seq<char>, slashes: Seq<char>, path: Seq<char>)
    requires
        root@ == bare + slashes,
        text_laws::all_in(slashes, CharSet::Slash),
        bare.len() > 0 ==> bare.last() != '/',
    ensures
        config::below(Some(root), path) == Some(bare + path),
        config::below(None, path) is None,
{
    let none = Seq::<char>::empty();
    assert(bare.len() == 0 || !CharSet::Slash.has(bare.last()));
    if bare.len() == 0 {
        assert(slashes + none + none == slashes);
        assert(bare + slashes == none + slashes);
        text_laws::law_trim(none, none, slashes, CharSet::Slash);
    } else {
        text_laws::law_trim_end(root@, CharSet::Slash);
        let t = text::trim_end(root@, CharSet::Slash);
        if t.len() < bare.len() {
            assert(root@.skip(t.len() as int)[bare.len() - 1 - t.len()] == bare.last());
        } else if t.len() > bare.len() {
            assert(t.last() == root@[t.len() - 1]);
            assert(root@[t.len() - 1] == slashes[t.len() - 1 - bare.len()]);
        }
        assert(root@.take(bare.len() as int) == bare);
    }
}

/// Where the service is asked for what.
pub proof fn law_paths()
    ensures
        config::WEBHOOK_PATH@ == "/webhooks/qmonitor"@,
        config::OAUTH_AUTHORIZE_PATH@ == "/oauth/qmonitor/authorize"@,
        config::OAUTH_TOKEN_PATH@ == "/oauth/qmonitor/token"@,
        config::OAUTH_REVOKE_PATH@ == "/oauth/qmonitor/revoke"@,
        oauth_loopback::REDIRECT_URI@ == "http://127.0.0.1:58473/callback"@,
{
}

/// The service is known where its address, its root and its origin are all given, and
/// none of them is empty.
pub proof fn law_onboarded(cfg: AppConfig)
    ensures
        cfg.onboarded() <==> {
            &&& cfg.base_url is Some && cfg.base_url->0@.len() > 0
            &&& cfg.api_root is Some && cfg.api_root->0@.len() > 0
            &&& cfg.web_origin is Some && cfg.web_origin->0@.len() > 0
        },
{
}

/// The database stands where the settings say, or else at its usual place; the catalog
/// comes from the address that is given, or else from Discord.
pub proof fn law_places(cfg: AppConfig, usual: Seq<char>)
    ensures
        cfg.db_path is Some ==> cfg.db_place(usual) == cfg.db_path->0@,
        cfg.db_path is None ==> cfg.db_place(usual) == usual,
        cfg.detectable_url is None || text_laws::all_in(cfg.detectable_url->0@, CharSet::White)
            ==> cfg.catalog_url() == "https://discord.com/api/v10/applications/detectable"@,
        cfg.detectable_url is Some && cfg.detectable_url->0@.len() > 0 && !CharSet::White.has(
            cfg.detectable_url->0@[0],
        ) && !CharSet::White.has(cfg.detectable_url->0@.last()) ==> cfg.catalog_url()
            == cfg.detectable_url->0@,
{
    if let Some(u) = cfg.detectable_url {
        let none = Seq::<char>::empty();
        if text_laws::all_in(u@, CharSet::White) {
            assert(u@ + none + none == u@);
            text_laws::law_trim(u@, none, none, CharSet::White);
        } else if u@.len() > 0 && !CharSet::White.has(u@[0]) && !CharSet::White.has(u@.last()) {
            assert(none + u@ + none == u@);
            text_laws::law_trim(none, u@, none, CharSet::White);
        }
    }
}

/// What is asked for consent: a code for this program, to be brought to the redirect
/// address, with the state, the challenge and the device of the login.
pub proof fn law_asked_for_consent(
    redirect_uri: Seq<char>,
    state: Seq<char>,
    code_challenge: Seq<char>,
    device_id: Seq<char>,
)
    ensures
        ({
            let asked = config::authorize_pairs(redirect_uri, state, code_challenge, device_id);
            &&& asked.len() == 8
            &&& asked.contains(("response_type"@, "code"@))
            &&& asked.contains(("client_id"@, "qmonitor"@))
            &&& asked.contains(("scope"@, "qmonitor"@))
            &&& asked.contains(("code_challenge_method"@, "S256"@))
            &&& asked.contains(("redirect_uri"@, redirect_uri))
            &&& asked.contains(("state"@, state))
            &&& asked.contains(("code_challenge"@, code_challenge))
            &&& asked.contains(("device_id"@, device_id))
        }),
{
    let asked = config::authorize_pairs(redirect_uri, state, code_challenge, device_id);
    assert(asked[0] == ("response_type"@, "code"@));
    assert(asked[1] == ("client_id"@, "qmonitor"@));
    assert(asked[2] == ("redirect_uri"@, redirect_uri));
    assert(asked[3] == ("state"@, state));
    assert(asked[4] == ("scope"@, "qmonitor"@));
    assert(asked[5] == ("code_challenge"@, code_challenge));
    assert(asked[6] == ("code_challenge_method"@, "S256"@));
    assert(asked[7] == ("device_id"@, device_id));
}

// ---------------------------------------------------------------------------
// Tokens
// ---------------------------------------------------------------------------

/// A token is read where there is one that is not empty; only a keyring that could not be
/// read is an error.
pub proof fn law_token_read(token: String, error: String)
    ensures
        token@.len() > 0 ==> auth::token_read(KeyringRead::Found(token)) == Ok::<
            Option<String>,
            String,
        >(Some(token)),
        token@.len() == 0 ==> auth::token_read(KeyringRead::Found(token)) == Ok::<
            Option<String>,
            String,
        >(None),
        auth::token_read(KeyringRead::Missing) == Ok::<Option<String>, String>(None),
        auth::token_read(KeyringRead::Failed(error)) == Err::<Option<String>, String>(error),
{
}

/// What was read from the keyring never takes the place of a token in memory.
pub proof fn law_memory_wins(
    have: Option<String>,
    read: Option<String>,
    error: String,
)
    ensures
        have is Some ==> auth::filled(have, Ok(read)) == have,
        have is Some ==> auth::filled(have, Err(error)) == have,
        have is None ==> auth::filled(have, Ok(read)) == read,
        have is None ==> auth::filled(have, Err(error)) is None,
{
}

/// The token for development is used before the one in memory, unless it is empty.
pub proof fn law_access_token(cfg: AppConfig, cache: TokenCache)
    ensures
        cfg.dev_access_token is Some && cfg.dev_access_token->0@.len() > 0 ==> auth::access_token(
            cfg,
            cache,
        ) == Some(cfg.dev_access_token->0@),
        cfg.dev_access_token is None || cfg.dev_access_token->0@.len() == 0 ==> (match cache.access {
            Some(t) => auth::access_token(cfg, cache) == Some(t@),
            None => auth::access_token(cfg, cache) is None,
        }),
{
}

/// The refresh token is revoked where there is one, and else the access token.
pub proof fn law_revoked_token(cfg: AppConfig, cache: TokenCache)
    ensures
        cache.refresh is Some ==> auth::token_to_revoke(cfg, cache) == Some(cache.refresh->0@),
        cache.refresh is None ==> auth::token_to_revoke(cfg, cache) == auth::access_token(
            cfg,
            cache,
        ),
{
}

/// What an exchange sends: the code that was brought, and the verifier and the device of
/// the login that has begun.
pub proof fn law_exchange_sends(a: LoginAttempt, code: Seq<char>)
    ensures
        ({
            let sent = auth::exchange_fields(a, code);
            &&& sent.len() == 6
            &&& sent.contains(("grant_type"@, "authorization_code"@))
            &&& sent.contains(("client_id"@, "qmonitor"@))
            &&& sent.contains(("redirect_uri"@, "http://127.0.0.1:58473/callback"@))
            &&& sent.contains(("code"@, code))
            &&& sent.contains(("code_verifier"@, a.verifier@))
            &&& sent.contains(("device_id"@, a.device_id@))
        }),
{
    let sent = auth::exchange_fields(a, code);
    assert(sent[0] == ("grant_type"@, "authorization_code"@));
    assert(sent[1] == ("code"@, code));
    assert(sent[2] == ("redirect_uri"@, "http://127.0.0.1:58473/callback"@));
    assert(sent[3] == ("client_id"@, "qmonitor"@));
    assert(sent[4] == ("code_verifier"@, a.verifier@));
    assert(sent[5] == ("device_id"@, a.device_id@));
}

/// What a refresh sends: the refresh token and the device that it is bound to.
pub proof fn law_refresh_sends(refresh: Seq<char>, device_id: Seq<char>)
    ensures
        ({
            let sent = auth::refresh_fields(refresh, device_id);
            &&& sent.len() == 4
            &&& sent.contains(("grant_type"@, "refresh_token"@))
            &&& sent.contains(("client_id"@, "qmonitor"@))
            &&& sent.contains(("refresh_token"@, refresh))
            &&& sent.contains(("device_id"@, device_id))
        }),
{
    let sent = auth::refresh_fields(refresh, device_id);
    assert(sent[0] == ("grant_type"@, "refresh_token"@));
    assert(sent[1] == ("refresh_token"@, refresh));
    assert(sent[2] == ("device_id"@, device_id));
    assert(sent[3] == ("client_id"@, "qmonitor"@));
}

/// What is sent to revoke a token: the token; and where the device is known, the device,
/// and the hint that it is a refresh token.
pub proof fn law_revoke_sends(token: Seq<char>, device_id: Seq<char>)
    ensures
        ({
            let sent = auth::revoke_fields(token, Some(device_id));
            &&& sent.len() == 4
            &&& sent.contains(("token"@, token))
            &&& sent.contains(("client_id"@, "qmonitor"@))
            &&& sent.contains(("device_id"@, device_id))
            &&& sent.contains(("token_type_hint"@, "refresh_token"@))
        }),
        ({
            let sent = auth::revoke_fields(token, None);
            &&& sent.len() == 2
            &&& sent.contains(("token"@, token))
            &&& sent.contains(("client_id"@, "qmonitor"@))
        }),
{
    let sent = auth::revoke_fields(token, Some(device_id));
    assert(sent[0] == ("token"@, token));
    assert(sent[1] == ("client_id"@, "qmonitor"@));
    assert(sent[2] == ("device_id"@, device_id));
    assert(sent[3] == ("token_type_hint"@, "refresh_token"@));
    let plain = auth::revoke_fields(token, None);
    assert(plain[0] == ("token"@, token));
    assert(plain[1] == ("client_id"@, "qmonitor"@));
}

// ---------------------------------------------------------------------------
// The service
// ---------------------------------------------------------------------------

/// An address is taken without white space around it and slashes behind it; nothing else
/// is taken away, and what is then empty is none.
pub proof fn law_bare_address(
    given: String,
    before: Seq<char>,
    bare: Seq<char>,
    slashes: Seq<char>,
    after: Seq<char>,
)
    requires
        given@ == before + (bare + slashes) + after,
        text_laws::all_in(before, CharSet::White),
        text_laws::all_in(after, CharSet::White),
        text_laws::all_in(slashes, CharSet::Slash),
        bare.len() > 0 ==> !CharSet::White.has(bare[0]) && !CharSet::White.has(bare.last())
            && bare.last() != '/',
    ensures
        bare.len() > 0 ==> auth::bare_address(Some(given)) == Some(bare),
        bare.len() == 0 ==> auth::bare_address(Some(given)) is None,
        auth::bare_address(None) is None,
{
    let none = Seq::<char>::empty();
    let kept = bare + slashes;
    assert(slashes.len() > 0 ==> kept.last() == slashes[slashes.len() - 1]);
    assert(bare.len() == 0 && slashes.len() > 0 ==> kept[0] == slashes[0]);
    assert(slashes.len() == 0 && bare.len() > 0 ==> kept.last() == bare.last());
    text_laws::law_trim(before, kept, after, CharSet::White);
    if bare.len() == 0 {
        assert(kept == none + slashes);
        text_laws::law_trim(none, none, slashes, CharSet::Slash);
    } else {
        text_laws::law_trim_end(kept, CharSet::Slash);
        let t = text::trim_end(kept, CharSet::Slash);
        if t.len() < bare.len() {
            assert(kept.skip(t.len() as int)[bare.len() - 1 - t.len()] == bare.last());
        } else if t.len() > bare.len() {
            assert(t.last() == kept[t.len() - 1]);
            assert(kept[t.len() - 1] == slashes[t.len() - 1 - bare.len()]);
        }
        assert(kept.take(bare.len() as int) == bare);
    }
}

/// What says that it is well and is the web front end is taken, and so is the interface
/// if it tells a web origin; anything else is refused, and why is told.
pub proof fn law_taken_service(b: HealthBody)
    ensures
        auth::health_refusal(b) is None <==> b.ok && (b.service@ == "fe"@ || (b.service@ == "be"@
            && auth::bare_address(b.web_origin) is Some)),
        !b.ok ==> auth::health_refusal(b) == Some("health ok=false"@),
        b.ok && b.service@ == "be"@ && auth::bare_address(b.web_origin) is None
            ==> auth::health_refusal(b) == Some("BE health missing webOrigin"@),
        b.ok && b.service@ != "be"@ && b.service@ != "fe"@ ==> auth::health_refusal(b) == Some(
            "unknown service `"@ + b.service@ + "`"@,
        ),
{
    reveal_strlit("fe");
    reveal_strlit("be");
    assert("fe"@[0] != "be"@[0]);
}

/// Behind the web front end the interface stands below its address; the interface itself
/// is the root, and tells where the web front end is. Nothing else of the settings
/// changes.
pub proof fn law_known_service(
    before: AppConfig,
    cfg: AppConfig,
    base: Seq<char>,
    b: HealthBody,
)
    requires
        auth::service_known(before, cfg, base, b),
        auth::health_refusal(b) is None,
    ensures
        text::opt_view(cfg.base_url) == Some(base),
        b.service@ == "fe"@ ==> {
            &&& cfg.service == Some(DetectedService::Fe)
            &&& text::opt_view(cfg.api_root) == Some(base + "/api"@)
            &&& text::opt_view(cfg.web_origin) == Some(base)
        },
        b.service@ == "be"@ ==> {
            &&& cfg.service == Some(DetectedService::Be)
            &&& text::opt_view(cfg.api_root) == Some(base)
            &&& text::opt_view(cfg.web_origin) == auth::bare_address(b.web_origin)
        },
        cfg.db_path == before.db_path,
        cfg.poll_interval_secs == before.poll_interval_secs,
        cfg.retention_acked_days == before.retention_acked_days,
        cfg.catalog_path == before.catalog_path,
        cfg.detectable_url == before.detectable_url,
        cfg.steam_path_override == before.steam_path_override,
        cfg.start_at_login == before.start_at_login,
        cfg.minimize_to_tray == before.minimize_to_tray,
        cfg.close_to_tray == before.close_to_tray,
        cfg.update_channel == before.update_channel,
        cfg.dev_access_token == before.dev_access_token,
{
    reveal_strlit("fe");
    reveal_strlit("be");
    assert("fe"@[0] != "be"@[0]);
}

// ---------------------------------------------------------------------------
// Callbacks
// ---------------------------------------------------------------------------

/// The value is that of the last pair with the name, and there is one where a pair has it.
pub proof fn law_last_value(pairs: Seq<(Seq<char>, Seq<char>)>, name: Seq<char>, k: int)
    requires
        0 <= k < pairs.len(),
        pairs[k].0 == name,
        forall|j: int| k < j < pairs.len() ==> (#[trigger] pairs[j]).0 != name,
    ensures
        auth::last_value(pairs, name) == Some(pairs[k].1),
    decreases pairs.len(),
{
    if k < pairs.len() - 1 {
        assert(pairs[pairs.len() - 1].0 != name);
        law_last_value(pairs.drop_last(), name, k);
    }
}

/// The value is that of the first pair with the name.
pub proof fn law_first_value(pairs: Seq<(Seq<char>, Seq<char>)>, name: Seq<char>, k: int)
    requires
        0 <= k < pairs.len(),
        pairs[k].0 == name,
        forall|j: int| 0 <= j < k ==> (#[trigger] pairs[j]).0 != name,
    ensures
        auth::first_value(pairs, name) == Some(pairs[k].1),
    decreases pairs.len(),
{
    let front = pairs.drop_last();
    if k < pairs.len() - 1 {
        law_first_value(front, name, k);
    } else {
        law_no_value(front, name);
    }
}

/// Without a pair with the name there is no value.
pub proof fn law_no_value(pairs: Seq<(Seq<char>, Seq<char>)>, name: Seq<char>)
    requires
        forall|j: int| 0 <= j < pairs.len() ==> (#[trigger] pairs[j]).0 != name,
    ensures
        auth::first_value(pairs, name) is None,
        auth::last_value(pairs, name) is None,
    decreases pairs.len(),
{
    if pairs.len() > 0 {
        assert(pairs[pairs.len() - 1].0 != name);
        law_no_value(pairs.drop_last(), name);
    }
}

/// An error that a callback brings is told, whatever else it brings; else it needs a
/// code, and for a login a state too, and these are what is taken from it.
pub proof fn law_callback(pairs: Seq<(Seq<char>, Seq<char>)>)
    ensures
        ({
            let error = auth::first_value(pairs, "error"@);
            let code = auth::last_value(pairs, "code"@);
            let state = auth::last_value(pairs, "state"@);
            &&& error is Some ==> {
                &&& auth::login_callback(pairs) == Err::<(Seq<char>, Seq<char>), Seq<char>>(
                    "oauth error: "@ + error->0,
                )
                &&& auth::callback_result(pairs) == Err::<(Seq<char>, Seq<char>), Seq<char>>(
                    "oauth error: "@ + error->0,
                )
            }
            &&& error is None && code is None ==> {
                &&& auth::login_callback(pairs) == Err::<(Seq<char>, Seq<char>), Seq<char>>(
                    "code missing in callback"@,
                )
                &&& auth::callback_result(pairs) == Err::<(Seq<char>, Seq<char>), Seq<char>>(
                    "code missing in callback"@,
                )
            }
            &&& error is None && code is Some && state is Some ==> {
                &&& auth::login_callback(pairs) == Ok::<(Seq<char>, Seq<char>), Seq<char>>(
                    (code->0, state->0),
                )
                &&& auth::callback_result(pairs) == Ok::<(Seq<char>, Seq<char>), Seq<char>>(
                    (code->0, state->0),
                )
            }
            &&& error is None && code is Some && state is None ==> {
                &&& auth::login_callback(pairs) == Err::<(Seq<char>, Seq<char>), Seq<char>>(
                    "state missing in callback"@,
                )
                &&& auth::callback_result(pairs) is Ok
                &&& (auth::callback_result(pairs)->Ok_0).0 == code->0
                &&& (auth::callback_result(pairs)->Ok_0).1.len() == 0
            }
        }),
{
}

// ---------------------------------------------------------------------------
// The device and the proof key
// ---------------------------------------------------------------------------

/// A stored salt is used without white space around it, if it has at least sixteen bytes
/// then.
pub proof fn law_salt(before: Seq<char>, salt: Seq<char>, after: Seq<char>)
    requires
        text_laws::all_in(before, CharSet::White),
        text_laws::all_in(after, CharSet::White),
        salt.len() > 0 ==> !CharSet::White.has(salt[0]) && !CharSet::White.has(salt.last()),
    ensures
        vstd::utf8::encode_utf8(salt).len() >= 16 ==> device::salt_in(before + salt + after) == Some(
            salt,
        ),
        vstd::utf8::encode_utf8(salt).len() < 16 ==> device::salt_in(before + salt + after) is None,
{
    text_laws::law_trim(before, salt, after, CharSet::White);
}

/// The device identifier is the digest of the salt, the host and the system, with bars
/// between them; a host that is not known goes by that word.
pub proof fn law_device_digest(salt: Seq<char>, host: Seq<char>, os: Seq<char>)
    ensures
        device::device_digest(salt, Some(host), os) == digest::text_digest(
            salt + seq!['|'] + host + seq!['|'] + os,
        ),
        device::device_digest(salt, None, os) == device::device_digest(salt, Some("unknown"@), os),
{
    reveal_strlit("|");
    assert("|"@ == seq!['|']);
}

/// A digest is told in hexadecimal, two digits for a byte, the high one first.
pub proof fn law_digest_text(s: Seq<char>, i: int)
    requires
        0 <= i < digest::sha256_digest(vstd::utf8::encode_utf8(s)).len(),
    ensures
        ({
            let d = digest::sha256_digest(vstd::utf8::encode_utf8(s));
            let t = digest::text_digest(s);
            &&& t.len() == 2 * d.len()
            &&& t[2 * i] == digest::hex_digit(d[i] as int / 16)
            &&& t[2 * i + 1] == digest::hex_digit(d[i] as int % 16)
        }),
{
    assert((2 * i) / 2 == i && (2 * i) % 2 == 0);
    assert((2 * i + 1) / 2 == i && (2 * i + 1) % 2 == 1);
}

/// The challenge of a verifier is its digest in the form of Base64 for web addresses.
pub proof fn law_challenge(verifier: Seq<char>)
    ensures
        pkce::challenge(verifier) == pkce::base64url(
            digest::sha256_digest(vstd::utf8::encode_utf8(verifier)),
        ),
{
}

// ---------------------------------------------------------------------------
// Pages and replies
// ---------------------------------------------------------------------------

/// A page holds its title, and its content behind the title.
pub proof fn law_page(title: Seq<char>, inner: Seq<char>)
    ensures
        exists|a: Seq<char>, b: Seq<char>, c: Seq<char>|
            oauth_loopback::page(title, inner) == #[trigger] (a + title + b + inner + c),
{
    let a = "<!DOCTYPE html>\n<html lang=\"en\"><head><meta charset=\"utf-8\"/><title>"@;
    let b = "</title><style>"@ + oauth_loopback::LOOPBACK_CSS@
        + "</style></head><body><div class=\"box\">"@;
    let c = "</div></body></html>"@;
    assert(oauth_loopback::page(title, inner) == a + title + b + inner + c);
}

/// A reply begins with its status, tells the length of its page in bytes, and ends with
/// the page behind an empty line.
pub proof fn law_reply(status: Seq<char>, body: Seq<char>)
    ensures
        text::starts_with(oauth_loopback::html_reply(status, body), "HTTP/1.1 "@ + status),
        text::ends_with(
            oauth_loopback::html_reply(status, body),
            seq!['\r', '\n', '\r', '\n'] + body,
        ),
        text::contains(
            oauth_loopback::html_reply(status, body),
            "Content-Length: "@ + number::decimal(vstd::utf8::encode_utf8(body).len())
                + seq!['\r', '\n'],
        ),
{
    let len = number::decimal(vstd::utf8::encode_utf8(body).len());
    let r = oauth_loopback::html_reply(status, body);
    let one = "HTTP/1.1 "@ + status;
    let two = "\r\nContent-Type: text/html; charset=utf-8\r\nContent-Length: "@;
    let three = "\r\nConnection: close\r\n\r\n"@;
    assert(r == one + two + len + three + body);
    assert(r.subrange(0, one.len() as int) == one);
    lemma_reply_end(one + two + len, body);
    lemma_reply_line();
    assert((three + body)[0] == three[0] && (three + body)[1] == three[1]);
    lemma_reply_length(one, len, three + body);
    assert(one + two + len + (three + body) == r);
}

proof fn lemma_reply_line()
    ensures
        "\r\nConnection: close\r\n\r\n"@.len() > 2,
        "\r\nConnection: close\r\n\r\n"@[0] == '\r',
        "\r\nConnection: close\r\n\r\n"@[1] == '\n',
{
    reveal_strlit("\r\nConnection: close\r\n\r\n");
}

proof fn lemma_reply_end(before: Seq<char>, body: Seq<char>)
    ensures
        text::ends_with(
            before + "\r\nConnection: close\r\n\r\n"@ + body,
            seq!['\r', '\n', '\r', '\n'] + body,
        ),
{
    let three = "\r\nConnection: close\r\n\r\n"@;
    reveal_strlit("\r\nConnection: close\r\n\r\n");
    let end = seq!['\r', '\n', '\r', '\n'];
    let r = before + three + body;
    assert(three.len() == 23);
    assert(three.subrange(19, 23) == end);
    let at = r.len() - (end + body).len();
    assert(at == before.len() + 19);
    assert forall|i: int| 0 <= i < (end + body).len() implies r.subrange(at, r.len() as int)[i] == (
    end + body)[i] by {
        if i < 4 {
            assert(r[at + i] == three[19 + i]);
            assert(three.subrange(19, 23)[i] == three[19 + i]);
        }
    }
    assert(r.subrange(at, r.len() as int) == end + body);
}

proof fn lemma_reply_length(before: Seq<char>, len: Seq<char>, rest: Seq<char>)
    requires
        rest.len() >= 2,
        rest[0] == '\r',
        rest[1] == '\n',
    ensures
        text::contains(
            before + "\r\nContent-Type: text/html; charset=utf-8\r\nContent-Length: "@ + len + rest,
            "Content-Length: "@ + len + seq!['\r', '\n'],
        ),
{
    let two = "\r\nContent-Type: text/html; charset=utf-8\r\nContent-Length: "@;
    let key = "Content-Length: "@;
    reveal_strlit("\r\nContent-Type: text/html; charset=utf-8\r\nContent-Length: ");
    reveal_strlit("Content-Length: ");
    let n = two.len() - key.len();
    assert(two.subrange(n, two.len() as int) == key);
    let r = before + two + len + rest;
    let p = key + len + seq!['\r', '\n'];
    let at = before.len() + n;
    assert forall|i: int| 0 <= i < p.len() implies r.subrange(at, at + p.len())[i] == p[i] by {
        if i < key.len() {
            assert(r[at + i] == two[n + i]);
            assert(two.subrange(n, two.len() as int)[i] == two[n + i]);
        }
    }
    assert(r.subrange(at, at + p.len()) == p);
    assert(text::occurs_at(r, p, at));
}

/// An error page tells the error with its brackets escaped.
pub proof fn law_failure_page(error: Seq<char>)
    ensures
        text::contains(
            oauth_loopback::failure_page(error),
            oauth_loopback::escaped("Login failed: "@ + error),
        ),
{
    let head = "<!DOCTYPE html><html><body style=\"font-family:system-ui;background:#0f1419;color:#e8eef4;display:grid;place-items:center;min-height:100vh\"><p>"@;
    let told = oauth_loopback::escaped("Login failed: "@ + error);
    let r = oauth_loopback::failure_page(error);
    let at = head.len() as int;
    assert(r.subrange(at, at + told.len()) == told);
    assert(text::occurs_at(r, told, at));
}

/// Each character is escaped by itself: the three that make tags become what stands for
/// them, and every other stays.
pub proof fn law_escaped(s: Seq<char>, c: char)
    ensures
        oauth_loopback::escaped(Seq::empty()).len() == 0,
        oauth_loopback::escaped(seq![c] + s) == (if c == '&' {
            "&amp;"@
        } else if c == '<' {
            "&lt;"@
        } else if c == '>' {
            "&gt;"@
        } else {
            seq![c]
        }) + oauth_loopback::escaped(s),
{
    reveal_strlit("&");
    reveal_strlit("<");
    reveal_strlit(">");
    reveal_strlit("&amp;");
    reveal_strlit("&lt;");
    reveal_strlit("&gt;");
    let amp = seq!['&'];
    let less = seq!['<'];
    let more = seq!['>'];
    assert("&"@ == amp && "<"@ == less && ">"@ == more);
    lemma_replace_first(s, c, '&', "&amp;"@);
    let a = text::replace(s, amp, "&amp;"@);
    let head = if c == '&' {
        "&amp;"@
    } else {
        seq![c]
    };
    lemma_replace_head(head, a, '<', "&lt;"@);
    let b = text::replace(a, less, "&lt;"@);
    if c == '<' {
        assert(text::replace(head, less, "&lt;"@) == "&lt;"@) by {
            lemma_replace_first(Seq::empty(), c, '<', "&lt;"@);
            assert(seq![c] + Seq::<char>::empty() == seq![c]);
            assert("&lt;"@ + Seq::<char>::empty() == "&lt;"@);
        }
        lemma_replace_head("&lt;"@, b, '>', "&gt;"@);
        lemma_replace_lacks("&lt;"@, '>', "&gt;"@);
    } else {
        lemma_replace_lacks(head, '<', "&lt;"@);
        lemma_replace_head(head, b, '>', "&gt;"@);
        if c == '>' {
            lemma_replace_first(Seq::empty(), c, '>', "&gt;"@);
            assert(seq![c] + Seq::<char>::empty() == seq![c]);
            assert("&gt;"@ + Seq::<char>::empty() == "&gt;"@);
        } else {
            lemma_replace_lacks(head, '>', "&gt;"@);
        }
    }
}

proof fn lemma_replace_first(s: Seq<char>, c: char, p: char, q: Seq<char>)
    ensures
        text::replace(seq![c] + s, seq![p], q) == (if c == p {
            q
        } else {
            seq![c]
        }) + text::replace(s, seq![p], q),
{
    let t = seq![c] + s;
    assert(t.skip(1) == s);
    assert(t[0] == c);
    assert(t.subrange(0, 1) == seq![c]);
    if c != p {
        assert(seq![c][0] != seq![p][0]);
    }
}

proof fn lemma_replace_head(a: Seq<char>, b: Seq<char>, p: char, q: Seq<char>)
    ensures
        text::replace(a + b, seq![p], q) == text::replace(a, seq![p], q) + text::replace(
            b,
            seq![p],
            q,
        ),
    decreases a.len(),
{
    if a.len() == 0 {
        assert(a + b == b);
        assert(text::replace(a, seq![p], q) + text::replace(b, seq![p], q) == text::replace(
            b,
            seq![p],
            q,
        ));
    } else {
        let c = a[0];
        let rest = a.skip(1);
        lemma_replace_head(rest, b, p, q);
        assert(a == seq![c] + rest);
        assert(a + b == seq![c] + (rest + b));
        lemma_replace_first(rest, c, p, q);
        lemma_replace_first(rest + b, c, p, q);
        let h = if c == p {
            q
        } else {
            seq![c]
        };
        assert(h + (text::replace(rest, seq![p], q) + text::replace(b, seq![p], q)) == h
            + text::replace(rest, seq![p], q) + text::replace(b, seq![p], q));
    }
}

proof fn lemma_replace_lacks(s: Seq<char>, p: char, q: Seq<char>)
    requires
        !s.contains(p),
    ensures
        text::replace(s, seq![p], q) == s,
{
    text_laws::law_replace(s, seq![p], q);
    text::lemma_find_from(s, seq![p], 0);
    if let Some(i) = text::find(s, seq![p]) {
        assert(s.subrange(i, i + 1)[0] == seq![p][0]);
        assert(s[i] == p);
    }
}

// ---------------------------------------------------------------------------
// Requests
// ---------------------------------------------------------------------------

/// The method and the path of a request are the first two words of its first line; a
/// word that is missing is `GET` or `/`.
pub proof fn law_request_line(req: Seq<char>)
    ensures
        ({
            let lines = split::lines(req);
            let words = split::words(lines[0]);
            let (method, path) = oauth_loopback::request_line(req);
            &&& lines.len() == 0 || words.len() == 0 ==> method == "GET"@ && path == "/"@
            &&& lines.len() > 0 && words.len() == 1 ==> method == words[0] && path == "/"@
            &&& lines.len() > 0 && words.len() >= 2 ==> method == words[0] && path == words[1]
        }),
{
}

/// The body of a request is what stands between its first empty line and the next, or
/// its end; a request without an empty line has none.
pub proof fn law_request_body(req: Seq<char>)
    ensures
        ({
            let parted = seq!['\r', '\n', '\r', '\n'];
            match text::find(req, parted) {
                None => oauth_loopback::request_body(req) is None,
                Some(i) => {
                    let rest = req.skip(i + 4);
                    match text::find(rest, parted) {
                        None => oauth_loopback::request_body(req) == Some(rest),
                        Some(j) => oauth_loopback::request_body(req) == Some(rest.take(j)),
                    }
                },
            }
        }),
{
    reveal_strlit("\r\n\r\n");
    assert(oauth_loopback::head_end() == seq!['\r', '\n', '\r', '\n']);
}

/// Only a callback that the browser gets, that has a code in its path and that brings a
/// code and a state, is exchanged, and what it brings is what is exchanged.
pub proof fn law_what_is_exchanged(
    method: Seq<char>,
    path: Seq<char>,
    body: Option<Seq<char>>,
    callback: Option<(Seq<char>, Seq<char>)>,
)
    ensures
        oauth_loopback::step_for(method, path, body, callback) is Exchange <==> {
            &&& method == "GET"@
            &&& text::starts_with(path, "/callback"@)
            &&& !text::starts_with(path, "/callback/complete"@)
            &&& text::contains(path, "code="@)
            &&& callback is Some
        },
        oauth_loopback::step_for(method, path, body, callback) is Exchange
            ==> oauth_loopback::step_for(method, path, body, callback) == (StepView::Exchange {
            code: (callback->0).0,
            state: (callback->0).1,
        }),
{
}

/// Only what the page in the browser posts, with a body, is read, without white space
/// around it; without a body the request is a bad one.
pub proof fn law_what_is_read(
    method: Seq<char>,
    path: Seq<char>,
    body: Option<Seq<char>>,
    callback: Option<(Seq<char>, Seq<char>)>,
)
    ensures
        oauth_loopback::step_for(method, path, body, callback) is ReadBody <==> {
            &&& method == "POST"@
            &&& text::starts_with(path, "/callback/complete"@)
            &&& body is Some
        },
        oauth_loopback::step_for(method, path, body, callback) is ReadBody
            ==> oauth_loopback::step_for(method, path, body, callback) == StepView::ReadBody(
            text::trim(body->0, CharSet::White),
        ),
        method == "POST"@ && text::starts_with(path, "/callback/complete"@) && body is None
            ==> oauth_loopback::step_for(method, path, body, callback) == StepView::Reply(
            oauth_loopback::BAD_REQUEST@,
        ),
{
    reveal_strlit("GET");
    reveal_strlit("POST");
    assert("GET"@.len() != "POST"@.len());
}

/// A callback that cannot be exchanged gets the page that reads it in the browser.
pub proof fn law_callback_page(
    path: Seq<char>,
    body: Option<Seq<char>>,
    callback: Option<(Seq<char>, Seq<char>)>,
)
    requires
        text::starts_with(path, "/callback"@),
        !text::starts_with(path, "/callback/complete"@),
        callback is None || !text::contains(path, "code="@),
    ensures
        oauth_loopback::step_for("GET"@, path, body, callback) == StepView::Reply(
            oauth_loopback::html_reply("200 OK"@, oauth_loopback::callback_page()),
        ),
{
}

/// A callback in an address is one that the address brings as a web address; what is no
/// web address, or brings an error, or lacks the code or the state, is none.
pub proof fn law_callback_in(address: Seq<char>)
    ensures
        web::url_refusal(address) is Some ==> oauth_loopback::callback_in(address) is None,
        web::url_refusal(address) is None && auth::login_callback(web::url_pairs(address)) is Err
            ==> oauth_loopback::callback_in(address) is None,
        web::url_refusal(address) is None && auth::login_callback(web::url_pairs(address)) is Ok
            ==> oauth_loopback::callback_in(address) == Some(
            auth::login_callback(web::url_pairs(address))->Ok_0,
        ),
        oauth_loopback::callback_address(address) == "http://127.0.0.1"@ + address,
{
}

} // verus!
