//! Tokens, finding out what answers at the service's address, and the calls that
//! exchange, refresh and revoke tokens.

use vstd::prelude::*;

use crate::config;
use crate::config::{
    AppConfig, DetectedService, KEYRING_ACCESS, KEYRING_SESSION, OAUTH_AUTHORIZE_PATH,
};
use crate::oauth_loopback::REDIRECT_URI;
use crate::pkce;
use crate::pkce::{challenge_s256, generate_verifier};
use crate::push;
use crate::push::HttpStatus;
use crate::random;
use crate::random::new_id;
use crate::text;
use crate::text::{copy_opt, join2, join3, same, trim_end_of, trim_of, CharSet};
use crate::web;
use crate::web::query_pairs_of;

verus! {

/// What the user is shown of the login.
#[derive(Debug)]
pub struct AuthState {
    pub base_url: String,
    pub webhook_url: String,
    pub has_access_token: bool,
    pub has_session_token: bool,
}

/// A login that has begun.
#[derive(Debug)]
pub struct LoginAttempt {
    pub state: String,
    pub verifier: String,
    pub device_id: String,
}

impl Clone for LoginAttempt {
    fn clone(&self) -> (r: Self)
        ensures
            r == *self,
    {
        LoginAttempt {
            state: self.state.clone(),
            verifier: self.verifier.clone(),
            device_id: self.device_id.clone(),
        }
    }
}

// ---------------------------------------------------------------------------
// Tokens in memory
// ---------------------------------------------------------------------------

/// The tokens in memory, and whether the keyring was read.
#[derive(Debug)]
pub struct TokenCache {
    pub access: Option<String>,
    pub refresh: Option<String>,
    pub keyring_hydrated: bool,
}

/// What came of reading a secret from the keyring.
#[derive(Debug)]
pub enum KeyringRead {
    Found(String),
    Missing,
    Failed(String),
}

/// The token that was read; an empty one counts as missing.
pub open spec fn token_read(k: KeyringRead) -> Result<Option<String>, String> {
    match k {
        KeyringRead::Found(p) => if p@.len() > 0 {
            Ok(Some(p))
        } else {
            Ok(None)
        },
        KeyringRead::Missing => Ok(None),
        KeyringRead::Failed(e) => Err(e),
    }
}

/// The token that was read; an empty one counts as missing.
pub fn keyring_token(k: KeyringRead) -> (r: Result<Option<String>, String>)
    ensures
        r == token_read(k),
{
    match k {
        KeyringRead::Found(p) => if p.as_str().unicode_len() > 0 {
            Ok(Some(p))
        } else {
            Ok(None)
        },
        KeyringRead::Missing => Ok(None),
        KeyringRead::Failed(e) => Err(e),
    }
}

/// A token in memory stays; a missing one is what was read, if it could be read.
pub open spec fn filled(
    have: Option<String>,
    read: Result<Option<String>, String>,
) -> Option<String> {
    match have {
        Some(t) => Some(t),
        None => match read {
            Ok(v) => v,
            Err(_) => None,
        },
    }
}

fn fill(have: Option<String>, read: Result<Option<String>, String>) -> (r: Option<String>)
    ensures
        r == filled(have, read),
{
    match have {
        Some(t) => Some(t),
        None => match read {
            Ok(v) => v,
            Err(_) => None,
        },
    }
}

/// The names and the values of secrets.
pub open spec fn secrets(s: Seq<(&'static str, String)>) -> Seq<(Seq<char>, Seq<char>)> {
    s.map_values(|e: (&'static str, String)| (e.0@, e.1@))
}

impl TokenCache {
    /// No tokens, and the keyring was not read.
    pub fn new() -> (r: Self)
        ensures
            r == (TokenCache { access: None, refresh: None, keyring_hydrated: false }),
    {
        TokenCache { access: None, refresh: None, keyring_hydrated: false }
    }

    /// Takes the tokens that are given; the others stay.
    pub fn cache_put(&mut self, access: Option<&str>, refresh: Option<&str>)
        ensures
            text::opt_view(final(self).access) == (match access {
                Some(a) => Some(a@),
                None => text::opt_view(old(self).access),
            }),
            text::opt_view(final(self).refresh) == (match refresh {
                Some(a) => Some(a@),
                None => text::opt_view(old(self).refresh),
            }),
            final(self).keyring_hydrated == old(self).keyring_hydrated,
    {
        if let Some(a) = access {
            self.access = Some(a.to_owned());
        }
        if let Some(a) = refresh {
            self.refresh = Some(a.to_owned());
        }
    }

    /// Takes the tokens that a login has given, and says which secrets the keyring
    /// is to hold: the name of each and the token.
    pub fn store_tokens(&mut self, access: &str, refresh: Option<&str>) -> (r: Vec<
        (&'static str, String),
    >)
        ensures
            text::opt_view(final(self).access) == Some(access@),
            text::opt_view(final(self).refresh) == (match refresh {
                Some(a) => Some(a@),
                None => text::opt_view(old(self).refresh),
            }),
            final(self).keyring_hydrated == old(self).keyring_hydrated,
            secrets(r@) == (match refresh {
                Some(a) => seq![(KEYRING_ACCESS@, access@), (KEYRING_SESSION@, a@)],
                None => seq![(KEYRING_ACCESS@, access@)],
            }),
    {
        self.cache_put(Some(access), refresh);
        let mut r: Vec<(&'static str, String)> = Vec::new();
        r.push((KEYRING_ACCESS, access.to_owned()));
        if let Some(a) = refresh {
            r.push((KEYRING_SESSION, a.to_owned()));
        }
        assert(secrets(r@) == (match refresh {
            Some(a) => seq![(KEYRING_ACCESS@, access@), (KEYRING_SESSION@, a@)],
            None => seq![(KEYRING_ACCESS@, access@)],
        }));
        r
    }

    /// Forgets the tokens; the keyring is not read again.
    pub fn cache_clear(&mut self)
        ensures
            *final(self) == (TokenCache { access: None, refresh: None, keyring_hydrated: true }),
    {
        self.access = None;
        self.refresh = None;
        self.keyring_hydrated = true;
    }

    /// Takes in what was read from the keyring, the first time only.
    pub fn hydrate_keyring_once(
        &mut self,
        access: Result<Option<String>, String>,
        refresh: Result<Option<String>, String>,
    )
        ensures
            *final(self) == (if old(self).keyring_hydrated {
                *old(self)
            } else {
                TokenCache {
                    access: filled(old(self).access, access),
                    refresh: filled(old(self).refresh, refresh),
                    keyring_hydrated: true,
                }
            }),
    {
        if self.keyring_hydrated {
            return;
        }
        self.keyring_hydrated = true;
        let a = copy_opt(&self.access);
        self.access = fill(a, access);
        let b = copy_opt(&self.refresh);
        self.refresh = fill(b, refresh);
    }
}

/// The access token: that for development, if there is one, else that in memory.
pub open spec fn access_token(cfg: AppConfig, cache: TokenCache) -> Option<Seq<char>> {
    if config::given(cfg.dev_access_token) {
        Some(cfg.dev_access_token->0@)
    } else {
        text::opt_view(cache.access)
    }
}

/// The access token.
pub fn get_access_token(cfg: &AppConfig, cache: &TokenCache) -> (r: Option<String>)
    ensures
        text::opt_view(r) == access_token(*cfg, *cache),
{
    if let Some(dev) = &cfg.dev_access_token {
        if dev.as_str().unicode_len() > 0 {
            return Some(dev.clone());
        }
    }
    copy_opt(&cache.access)
}

/// The refresh token.
pub fn get_refresh_token(cache: &TokenCache) -> (r: Option<String>)
    ensures
        r == cache.refresh,
{
    copy_opt(&cache.refresh)
}

/// What the user is shown of the login: nothing without an address or a root.
pub fn auth_state(cfg: &AppConfig, cache: &TokenCache) -> (r: Option<AuthState>)
    ensures
        match r {
            Some(a) => {
                &&& text::opt_view(cfg.base_url) == Some(a.base_url@)
                &&& config::below(cfg.api_root, config::WEBHOOK_PATH@) == Some(a.webhook_url@)
                &&& a.has_access_token == (access_token(*cfg, *cache) is Some)
                &&& a.has_session_token == (cache.refresh is Some)
            },
            None => cfg.base_url is None || cfg.api_root is None,
        },
{
    let base = match &cfg.base_url {
        Some(b) => b.clone(),
        None => {
            return None;
        },
    };
    match cfg.webhook_url() {
        Some(webhook) => Some(
            AuthState {
                base_url: base,
                webhook_url: webhook,
                has_access_token: get_access_token(cfg, cache).is_some(),
                has_session_token: cache.refresh.is_some(),
            },
        ),
        None => None,
    }
}

// ---------------------------------------------------------------------------
// The service
// ---------------------------------------------------------------------------

/// What the service says of itself.
#[derive(Debug)]
pub struct HealthBody {
    pub ok: bool,
    pub service: String,
    pub web_origin: Option<String>,
}

/// An address without white space around it and slashes at its end; none where
/// nothing is left.
pub open spec fn bare_address(s: Option<String>) -> Option<Seq<char>> {
    match s {
        Some(u) => {
            let t = text::trim_end(text::trim(u@, CharSet::White), CharSet::Slash);
            if t.len() > 0 {
                Some(t)
            } else {
                None
            }
        },
        None => None,
    }
}

fn bare_address_of(s: &Option<String>) -> (r: Option<String>)
    ensures
        text::opt_view(r) == bare_address(*s),
{
    match s {
        Some(u) => {
            let a = trim_of(u.as_str(), CharSet::White);
            let t = trim_end_of(a.as_str(), CharSet::Slash);
            if t.as_str().unicode_len() > 0 {
                Some(t)
            } else {
                None
            }
        },
        None => None,
    }
}

/// The address to ask, and what to ask of it.
pub fn probe_address(cfg: &AppConfig) -> (r: Result<(String, String), String>)
    ensures
        match r {
            Ok((base, health)) => bare_address(cfg.base_url) == Some(base@) && health@ == base@
                + "/api/health"@,
            Err(e) => bare_address(cfg.base_url) is None && e@ == "URL is empty"@,
        },
{
    match bare_address_of(&cfg.base_url) {
        Some(base) => {
            let health = join2(base.as_str(), "/api/health");
            Ok((base, health))
        },
        None => Err("URL is empty".to_owned()),
    }
}

/// What is wrong with the status of the service's answer.
pub fn check_health_status(status: &HttpStatus) -> (r: Result<(), String>)
    ensures
        match r {
            Ok(()) => push::is_success(status.code),
            Err(e) => !push::is_success(status.code) && e@ == "health HTTP "@ + status.shown@,
        },
{
    if status.succeeded() {
        Ok(())
    } else {
        Err(join2("health HTTP ", status.shown.as_str()))
    }
}

/// What is wrong with what the service says of itself; nothing where it is the
/// web front end, or the interface with a web origin.
pub open spec fn health_refusal(b: HealthBody) -> Option<Seq<char>> {
    if !b.ok {
        Some("health ok=false"@)
    } else if b.service@ == "fe"@ {
        None
    } else if b.service@ == "be"@ {
        if bare_address(b.web_origin) is Some {
            None
        } else {
            Some("BE health missing webOrigin"@)
        }
    } else {
        Some("unknown service `"@ + b.service@ + "`"@)
    }
}

/// The settings agree with what the service at `base` says of itself, and are
/// otherwise those of `old`.
pub open spec fn service_known(
    old_cfg: AppConfig,
    cfg: AppConfig,
    base: Seq<char>,
    b: HealthBody,
) -> bool {
    &&& cfg == (AppConfig {
        base_url: cfg.base_url,
        api_root: cfg.api_root,
        web_origin: cfg.web_origin,
        service: cfg.service,
        ..old_cfg
    })
    &&& text::opt_view(cfg.base_url) == Some(base)
    &&& if b.service@ == "fe"@ {
        &&& cfg.service == Some(DetectedService::Fe)
        &&& text::opt_view(cfg.api_root) == Some(base + "/api"@)
        &&& text::opt_view(cfg.web_origin) == Some(base)
    } else {
        &&& cfg.service == Some(DetectedService::Be)
        &&& text::opt_view(cfg.api_root) == Some(base)
        &&& text::opt_view(cfg.web_origin) == bare_address(b.web_origin)
    }
}

/// Takes in what the service at `base` says of itself, and gives its name. Where
/// it is refused, the settings stay as they are.
pub fn apply_health(cfg: &mut AppConfig, base: &String, body: &HealthBody) -> (r: Result<
    String,
    String,
>)
    ensures
        match r {
            Ok(name) => {
                &&& health_refusal(*body) is None
                &&& name@ == body.service@
                &&& service_known(*old(cfg), *final(cfg), base@, *body)
            },
            Err(e) => health_refusal(*body) == Some(e@) && *final(cfg) == *old(cfg),
        },
{
    if !body.ok {
        return Err("health ok=false".to_owned());
    }
    if same(body.service.as_str(), "fe") {
        cfg.service = Some(DetectedService::Fe);
        cfg.api_root = Some(join2(base.as_str(), "/api"));
        cfg.web_origin = Some(base.clone());
        cfg.base_url = Some(base.clone());
        return Ok("fe".to_owned());
    }
    if same(body.service.as_str(), "be") {
        return match bare_address_of(&body.web_origin) {
            Some(web) => {
                cfg.service = Some(DetectedService::Be);
                cfg.api_root = Some(base.clone());
                cfg.web_origin = Some(web);
                cfg.base_url = Some(base.clone());
                Ok("be".to_owned())
            },
            None => Err("BE health missing webOrigin".to_owned()),
        };
    }
    Err(join3("unknown service `", body.service.as_str(), "`"))
}

/// Once a service has been taken in, with an address for its web origin, the
/// settings name all that a login needs.
pub proof fn law_known_service_is_onboarded(
    old_cfg: AppConfig,
    cfg: AppConfig,
    base: Seq<char>,
    b: HealthBody,
)
    requires
        base.len() > 0,
        health_refusal(b) is None,
        service_known(old_cfg, cfg, base, b),
    ensures
        cfg.onboarded(),
{
}

// ---------------------------------------------------------------------------
// Token calls
// ---------------------------------------------------------------------------

/// A call to the service: where to, and the names and values of its body.
#[derive(Debug)]
pub struct TokenCall {
    pub url: String,
    pub fields: Vec<(String, String)>,
}

/// What is sent for an authorization code.
pub open spec fn exchange_fields(a: LoginAttempt, code: Seq<char>) -> Seq<
    (Seq<char>, Seq<char>),
> {
    seq![
        ("grant_type"@, "authorization_code"@),
        ("code"@, code),
        ("redirect_uri"@, REDIRECT_URI@),
        ("client_id"@, "qmonitor"@),
        ("code_verifier"@, a.verifier@),
        ("device_id"@, a.device_id@),
    ]
}

fn field(name: &str, value: &str) -> (r: (String, String))
    ensures
        r.0@ == name@,
        r.1@ == value@,
{
    (name.to_owned(), value.to_owned())
}

/// The call that exchanges an authorization code for tokens. It is refused where
/// the state is not that of the login that has begun, or where the root of the
/// service is not known.
pub fn exchange_call(cfg: &AppConfig, attempt: &LoginAttempt, code: &str, state: &str) -> (r:
    Result<TokenCall, String>)
    ensures
        match r {
            Ok(c) => {
                &&& state@ == attempt.state@
                &&& config::below(cfg.api_root, config::OAUTH_TOKEN_PATH@) == Some(c.url@)
                &&& web::pair_views(c.fields@) == exchange_fields(*attempt, code@)
            },
            Err(e) => {
                ||| state@ != attempt.state@ && e@ == "state mismatch"@
                ||| state@ == attempt.state@ && cfg.api_root is None && e@
                    == "api root not configured"@
            },
        },
{
    if !same(state, attempt.state.as_str()) {
        return Err("state mismatch".to_owned());
    }
    match cfg.token_url() {
        Some(url) => {
            let mut fields: Vec<(String, String)> = Vec::new();
            fields.push(field("grant_type", "authorization_code"));
            fields.push(field("code", code));
            fields.push(field("redirect_uri", REDIRECT_URI));
            fields.push(field("client_id", "qmonitor"));
            fields.push(field("code_verifier", attempt.verifier.as_str()));
            fields.push(field("device_id", attempt.device_id.as_str()));
            assert(web::pair_views(fields@) == exchange_fields(*attempt, code@));
            Ok(TokenCall { url, fields })
        },
        None => Err("api root not configured".to_owned()),
    }
}

/// What is wrong with the answer to an exchange.
pub fn check_exchange(status: &HttpStatus, body: &str) -> (r: Result<(), String>)
    ensures
        match r {
            Ok(()) => push::is_success(status.code),
            Err(e) => !push::is_success(status.code) && e@ == "token HTTP "@ + status.shown@
                + ": "@ + body@,
        },
{
    if status.succeeded() {
        return Ok(());
    }
    let mut e = join3("token HTTP ", status.shown.as_str(), ": ");
    e.append(body);
    Err(e)
}

/// What is sent for a new access token.
pub open spec fn refresh_fields(refresh: Seq<char>, device_id: Seq<char>) -> Seq<
    (Seq<char>, Seq<char>),
> {
    seq![
        ("grant_type"@, "refresh_token"@),
        ("refresh_token"@, refresh),
        ("device_id"@, device_id),
        ("client_id"@, "qmonitor"@),
    ]
}

/// The call that gets a new access token. It needs a refresh token, the device
/// identifier and the root of the service, in this order.
pub fn refresh_call(
    cfg: &AppConfig,
    refresh: &Option<String>,
    device_id: &Result<String, String>,
) -> (r: Result<TokenCall, String>)
    ensures
        match r {
            Ok(c) => {
                &&& refresh is Some
                &&& device_id is Ok
                &&& config::below(cfg.api_root, config::OAUTH_TOKEN_PATH@) == Some(c.url@)
                &&& web::pair_views(c.fields@) == refresh_fields(refresh->0@, device_id->Ok_0@)
            },
            Err(e) => {
                ||| refresh is None && e@ == "no refresh token"@
                ||| refresh is Some && device_id is Err && e@ == device_id->Err_0@
                ||| refresh is Some && device_id is Ok && cfg.api_root is None && e@
                    == "api root not configured"@
            },
        },
{
    let token = match refresh {
        Some(t) => t,
        None => {
            return Err("no refresh token".to_owned());
        },
    };
    let device = match device_id {
        Ok(d) => d,
        Err(e) => {
            return Err(e.clone());
        },
    };
    match cfg.token_url() {
        Some(url) => {
            let mut fields: Vec<(String, String)> = Vec::new();
            fields.push(field("grant_type", "refresh_token"));
            fields.push(field("refresh_token", token.as_str()));
            fields.push(field("device_id", device.as_str()));
            fields.push(field("client_id", "qmonitor"));
            assert(web::pair_views(fields@) == refresh_fields(token@, device@));
            Ok(TokenCall { url, fields })
        },
        None => Err("api root not configured".to_owned()),
    }
}

/// What is wrong with the answer to a refresh.
pub fn check_refresh(status: &HttpStatus) -> (r: Result<(), String>)
    ensures
        match r {
            Ok(()) => push::is_success(status.code),
            Err(e) => !push::is_success(status.code) && e@ == "refresh HTTP "@ + status.shown@,
        },
{
    if status.succeeded() {
        Ok(())
    } else {
        Err(join2("refresh HTTP ", status.shown.as_str()))
    }
}

/// What is sent to revoke a token.
pub open spec fn revoke_fields(token: Seq<char>, device_id: Option<Seq<char>>) -> Seq<
    (Seq<char>, Seq<char>),
> {
    let plain = seq![("token"@, token), ("client_id"@, "qmonitor"@)];
    match device_id {
        Some(d) => plain + seq![("device_id"@, d), ("token_type_hint"@, "refresh_token"@)],
        None => plain,
    }
}

/// The token to revoke: the refresh token, or else the access token.
pub open spec fn token_to_revoke(cfg: AppConfig, cache: TokenCache) -> Option<Seq<char>> {
    match cache.refresh {
        Some(t) => Some(t@),
        None => access_token(cfg, cache),
    }
}

/// The call that revokes the token; none without a root or a token.
pub fn revoke_call(cfg: &AppConfig, cache: &TokenCache, device_id: &Option<String>) -> (r: Option<
    TokenCall,
>)
    ensures
        match r {
            Some(c) => {
                &&& config::below(cfg.api_root, config::OAUTH_REVOKE_PATH@) == Some(c.url@)
                &&& token_to_revoke(*cfg, *cache) is Some
                &&& web::pair_views(c.fields@) == revoke_fields(
                    token_to_revoke(*cfg, *cache)->0,
                    text::opt_view(*device_id),
                )
            },
            None => cfg.api_root is None || token_to_revoke(*cfg, *cache) is None,
        },
{
    let url = match cfg.revoke_url() {
        Some(u) => u,
        None => {
            return None;
        },
    };
    let token = match &cache.refresh {
        Some(t) => t.clone(),
        None => match get_access_token(cfg, cache) {
            Some(t) => t,
            None => {
                return None;
            },
        },
    };
    let mut fields: Vec<(String, String)> = Vec::new();
    fields.push(field("token", token.as_str()));
    fields.push(field("client_id", "qmonitor"));
    if let Some(d) = device_id {
        fields.push(field("device_id", d.as_str()));
        fields.push(field("token_type_hint", "refresh_token"));
    }
    assert(web::pair_views(fields@) == revoke_fields(token@, text::opt_view(*device_id)));
    Some(TokenCall { url, fields })
}

// ---------------------------------------------------------------------------
// Login
// ---------------------------------------------------------------------------

/// The value of the last pair with this name.
pub open spec fn last_value(pairs: Seq<(Seq<char>, Seq<char>)>, name: Seq<char>) -> Option<
    Seq<char>,
>
    decreases pairs.len(),
{
    if pairs.len() == 0 {
        None
    } else if pairs.last().0 == name {
        Some(pairs.last().1)
    } else {
        last_value(pairs.drop_last(), name)
    }
}

/// The value of the first pair with this name.
pub open spec fn first_value(pairs: Seq<(Seq<char>, Seq<char>)>, name: Seq<char>) -> Option<
    Seq<char>,
>
    decreases pairs.len(),
{
    if pairs.len() == 0 {
        None
    } else {
        match first_value(pairs.drop_last(), name) {
            Some(v) => Some(v),
            None => if pairs.last().0 == name {
                Some(pairs.last().1)
            } else {
                None
            },
        }
    }
}

/// The code that a callback brings, and the state if it brings one: the last of
/// each. An error that the callback brings, or a missing code, is told instead.
pub open spec fn callback_parts(pairs: Seq<(Seq<char>, Seq<char>)>) -> Result<
    (Seq<char>, Option<Seq<char>>),
    Seq<char>,
> {
    match first_value(pairs, "error"@) {
        Some(e) => Err("oauth error: "@ + e),
        None => match last_value(pairs, "code"@) {
            None => Err("code missing in callback"@),
            Some(code) => Ok((code, last_value(pairs, "state"@))),
        },
    }
}

/// The code and the state that a callback brings, where the state may be missing
/// and is then empty.
pub open spec fn callback_result(pairs: Seq<(Seq<char>, Seq<char>)>) -> Result<
    (Seq<char>, Seq<char>),
    Seq<char>,
> {
    match callback_parts(pairs) {
        Ok((code, Some(state))) => Ok((code, state)),
        Ok((code, None)) => Ok((code, Seq::empty())),
        Err(e) => Err(e),
    }
}

/// The code and the state that a callback brings to a login, which needs both.
pub open spec fn login_callback(pairs: Seq<(Seq<char>, Seq<char>)>) -> Result<
    (Seq<char>, Seq<char>),
    Seq<char>,
> {
    match callback_parts(pairs) {
        Ok((code, Some(state))) => Ok((code, state)),
        Ok((_, None)) => Err("state missing in callback"@),
        Err(e) => Err(e),
    }
}

/// The code that the query of a callback brings, and the state if it brings one.
pub fn callback_from_pairs(pairs: &Vec<(String, String)>) -> (r: Result<
    (String, Option<String>),
    String,
>)
    ensures
        match r {
            Ok((code, state)) => callback_parts(web::pair_views(pairs@)) == Ok::<
                (Seq<char>, Option<Seq<char>>),
                Seq<char>,
            >((code@, text::opt_view(state))),
            Err(e) => callback_parts(web::pair_views(pairs@)) == Err::<
                (Seq<char>, Option<Seq<char>>),
                Seq<char>,
            >(e@),
        },
{
    proof {
        reveal_strlit("error");
        reveal_strlit("code");
        reveal_strlit("state");
        assert("error"@.len() == 5 && "code"@.len() == 4 && "state"@.len() == 5);
        assert("error"@[0] == 'e' && "state"@[0] == 's');
    }
    let ghost v = web::pair_views(pairs@);
    let mut code: Option<String> = None;
    let mut state: Option<String> = None;
    let mut i: usize = 0;
    while i < pairs.len()
        invariant
            i <= pairs@.len(),
            v == web::pair_views(pairs@),
            "error"@ != "code"@,
            "error"@ != "state"@,
            "code"@ != "state"@,
            first_value(v.take(i as int), "error"@) is None,
            text::opt_view(code) == last_value(v.take(i as int), "code"@),
            text::opt_view(state) == last_value(v.take(i as int), "state"@),
        decreases pairs.len() - i,
    {
        assert(v.take(i + 1).drop_last() == v.take(i as int));
        assert(v.take(i + 1).last() == (pairs@[i as int].0@, pairs@[i as int].1@));
        let name = pairs[i].0.as_str();
        if same(name, "code") {
            code = Some(pairs[i].1.clone());
        } else if same(name, "state") {
            state = Some(pairs[i].1.clone());
        } else if same(name, "error") {
            proof {
                lemma_first_stays(v, "error"@, i + 1);
            }
            return Err(join2("oauth error: ", pairs[i].1.as_str()));
        }
        i = i + 1;
    }
    assert(v.take(i as int) == v);
    match code {
        None => Err("code missing in callback".to_owned()),
        Some(c) => Ok((c, state)),
    }
}

proof fn lemma_first_stays(pairs: Seq<(Seq<char>, Seq<char>)>, name: Seq<char>, n: int)
    requires
        0 <= n <= pairs.len(),
        first_value(pairs.take(n), name) is Some,
    ensures
        first_value(pairs, name) == first_value(pairs.take(n), name),
    decreases pairs.len() - n,
{
    if n < pairs.len() {
        assert(pairs.take(n + 1).drop_last() == pairs.take(n));
        lemma_first_stays(pairs, name, n + 1);
    } else {
        assert(pairs.take(n) == pairs);
    }
}

/// The code and the state that the address of a callback brings, the state empty
/// if it brings none; where it is no address, why it is none.
pub fn parse_callback_code(url: &str) -> (r: Result<(String, String), String>)
    ensures
        match web::url_refusal(url@) {
            Some(e) => r is Err && r->Err_0@ == e,
            None => match callback_result(web::url_pairs(url@)) {
                Ok((code, state)) => r is Ok && (r->Ok_0).0@ == code && (r->Ok_0).1@ == state,
                Err(e) => r is Err && r->Err_0@ == e,
            },
        },
{
    match query_pairs_of(url) {
        Ok(pairs) => match callback_from_pairs(&pairs) {
            Ok((code, Some(state))) => Ok((code, state)),
            Ok((code, None)) => Ok((code, String::new())),
            Err(e) => Err(e),
        },
        Err(e) => Err(e),
    }
}

/// The code and the state that the address of a callback brings to a login.
pub fn login_callback_of(url: &str) -> (r: Result<(String, String), String>)
    ensures
        match web::url_refusal(url@) {
            Some(e) => r is Err && r->Err_0@ == e,
            None => match login_callback(web::url_pairs(url@)) {
                Ok((code, state)) => r is Ok && (r->Ok_0).0@ == code && (r->Ok_0).1@ == state,
                Err(e) => r is Err && r->Err_0@ == e,
            },
        },
{
    match query_pairs_of(url) {
        Ok(pairs) => match callback_from_pairs(&pairs) {
            Ok((code, Some(state))) => Ok((code, state)),
            Ok((_, None)) => Err("state missing in callback".to_owned()),
            Err(e) => Err(e),
        },
        Err(e) => Err(e),
    }
}

/// A callback without a state belongs to no login: it is not taken for one, and
/// the state of one that has begun is never empty.
pub proof fn law_missing_state_is_refused(a: LoginAttempt, pairs: Seq<(Seq<char>, Seq<char>)>)
    requires
        random::is_uuid_text(a.state@),
        last_value(pairs, "state"@) is None,
        callback_result(pairs) is Ok,
    ensures
        login_callback(pairs) is Err,
        (callback_result(pairs)->Ok_0).1 != a.state@,
{
}

/// Begins a login of this device: gives what to remember of it, the challenge
/// and the device identifier.
pub fn begin_login_attempt(device_id: String) -> (r: (LoginAttempt, String, String))
    ensures
        random::is_uuid_text(r.0.state@),
        exists|u: Seq<u8>, v: Seq<u8>|
            random::is_random_id(u) && random::is_random_id(v) && r.0.verifier@
                == #[trigger] pkce::base64url(u + v),
        r.0.verifier@.len() == 43,
        forall|i: int| 0 <= i < 43 ==> pkce::unreserved(#[trigger] r.0.verifier@[i]),
        r.0.device_id@ == device_id@,
        r.1@ == pkce::challenge(r.0.verifier@),
        r.1@.len() == 43,
        r.2@ == device_id@,
{
    let state = new_id();
    let verifier = generate_verifier();
    let challenge = challenge_s256(verifier.as_str());
    (LoginAttempt { state, verifier, device_id: device_id.clone() }, challenge, device_id)
}

/// The login that has begun, if there is one.
pub fn current_attempt(attempt: &Option<LoginAttempt>) -> (r: Result<LoginAttempt, String>)
    ensures
        match r {
            Ok(a) => *attempt == Some(a),
            Err(e) => attempt is None && e@ == "no login attempt"@,
        },
{
    match attempt {
        Some(a) => Ok(a.clone()),
        None => Err("no login attempt".to_owned()),
    }
}

/// Begins a login: gives what to remember of it, and the address where the user
/// gives consent. The service must be known, and the device identified.
pub fn start_login(cfg: &AppConfig, device_id: Result<String, String>) -> (r: Result<
    (LoginAttempt, String),
    String,
>)
    requires
        device_id is Ok ==> device_id->Ok_0@.len() <= web::PART_LIMIT,
        cfg.web_origin is Some ==> cfg.web_origin->0@.len() < web::PART_LIMIT - 100,
    ensures
        match r {
            Ok((a, url)) => {
                let base = config::below(cfg.web_origin, OAUTH_AUTHORIZE_PATH@)->0;
                let asked = config::authorize_pairs(
                    REDIRECT_URI@,
                    a.state@,
                    pkce::challenge(a.verifier@),
                    a.device_id@,
                );
                &&& cfg.onboarded()
                &&& device_id is Ok && a.device_id@ == device_id->Ok_0@
                &&& random::is_uuid_text(a.state@)
                &&& exists|u: Seq<u8>, v: Seq<u8>|
                    random::is_random_id(u) && random::is_random_id(v) && a.verifier@
                        == #[trigger] pkce::base64url(u + v)
                &&& a.verifier@.len() == 43
                &&& forall|i: int| 0 <= i < 43 ==> pkce::unreserved(#[trigger] a.verifier@[i])
                &&& web::url_with_pairs(base, asked) == Some(url@)
                &&& web::is_web(base) ==> web::url_pairs(url@) == web::url_pairs(base) + asked
            },
            Err(e) => if !cfg.onboarded() {
                e@ == "Set and verify a Questory URL first"@
            } else if device_id is Err {
                e@ == device_id->Err_0@
            } else {
                &&& web::url_refusal(config::below(cfg.web_origin, OAUTH_AUTHORIZE_PATH@)->0) is Some
                &&& e@ == "web origin missing"@
            },
        },
{
    if !cfg.has_base_url() {
        return Err("Set and verify a Questory URL first".to_owned());
    }
    let device_id = match device_id {
        Ok(d) => d,
        Err(e) => {
            return Err(e);
        },
    };
    let (attempt, challenge, device_id) = begin_login_attempt(device_id);
    proof {
        reveal_strlit("http://127.0.0.1:58473/callback");
    }
    match cfg.authorize_url(
        REDIRECT_URI,
        attempt.state.as_str(),
        challenge.as_str(),
        device_id.as_str(),
    ) {
        Some(url) => Ok((attempt, url)),
        None => Err("web origin missing".to_owned()),
    }
}

/// The login that the address of a callback, as the user has pasted it, belongs
/// to, with the code and the state that it brings.
pub fn complete_login(attempt: &Option<LoginAttempt>, callback_url: &str) -> (r: Result<
    (LoginAttempt, String, String),
    String,
>)
    ensures
        match web::url_refusal(callback_url@) {
            Some(e) => r is Err && r->Err_0@ == e,
            None => match login_callback(web::url_pairs(callback_url@)) {
                Err(e) => r is Err && r->Err_0@ == e,
                Ok((code, state)) => match *attempt {
                    Some(a) => {
                        &&& r is Ok
                        &&& (r->Ok_0).0 == a
                        &&& (r->Ok_0).1@ == code
                        &&& (r->Ok_0).2@ == state
                    },
                    None => r is Err && r->Err_0@ == "no login attempt — click Log in first"@,
                },
            },
        },
{
    let (code, state) = match login_callback_of(callback_url) {
        Ok(p) => p,
        Err(e) => {
            return Err(e);
        },
    };
    match attempt {
        Some(a) => Ok((a.clone(), code, state)),
        None => Err("no login attempt — click Log in first".to_owned()),
    }
}

/// Whether the service is known and the user is logged in.
pub fn is_logged_in(cfg: &AppConfig, cache: &TokenCache) -> (r: bool)
    ensures
        r == (cfg.onboarded() && access_token(*cfg, *cache) is Some),
{
    cfg.has_base_url() && get_access_token(cfg, cache).is_some()
}

/// A token that was stored is the one that is used, unless there is one for
/// development; after the tokens are forgotten there is none.
pub proof fn law_stored_token_is_used(cfg: AppConfig, cache: TokenCache, access: Seq<char>)
    ensures
        !config::given(cfg.dev_access_token) && text::opt_view(cache.access) == Some(access)
            ==> access_token(cfg, cache) == Some(access),
        !config::given(cfg.dev_access_token) && cache.access is None ==> access_token(cfg, cache)
            is None,
{
}

} // verus!
