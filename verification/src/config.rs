//! The settings of the application.

use vstd::prelude::*;

use crate::text;
use crate::text::{copy_opt, join2, same, trim_end_of, trim_of, CharSet};
use crate::web;
use crate::web::with_query;

verus! {

pub const WEBHOOK_PATH: &'static str = "/webhooks/qmonitor";

pub const OAUTH_AUTHORIZE_PATH: &'static str = "/oauth/qmonitor/authorize";

pub const OAUTH_TOKEN_PATH: &'static str = "/oauth/qmonitor/token";

pub const OAUTH_REVOKE_PATH: &'static str = "/oauth/qmonitor/revoke";

pub const KEYRING_SERVICE: &'static str = "qmonitor";

pub const KEYRING_ACCESS: &'static str = "access_token";

pub const KEYRING_SESSION: &'static str = "session_token";

pub const DEFAULT_DETECTABLE_URL: &'static str = "https://discord.com/api/v10/applications/detectable";

/// The service that answers at the address that the user has given: the web
/// front end, or the programming interface itself.
#[derive(Debug, Clone, Copy, PartialEq, Eq, Structural)]
pub enum DetectedService {
    Fe,
    Be,
}

/// The releases that are offered: the latest, or the newest preview.
#[derive(Debug, Clone, Copy, PartialEq, Eq, Structural)]
pub enum UpdateChannel {
    Stable,
    Canary,
}

impl Default for UpdateChannel {
    fn default() -> (r: Self)
        ensures
            r == UpdateChannel::Stable,
    {
        UpdateChannel::Stable
    }
}

/// The settings.
#[derive(Debug)]
pub struct AppConfig {
    pub base_url: Option<String>,
    /// The root for tokens, webhook and revocation.
    pub api_root: Option<String>,
    /// Where the user gives consent.
    pub web_origin: Option<String>,
    pub service: Option<DetectedService>,
    /// Another place for the database.
    pub db_path: Option<String>,
    pub poll_interval_secs: u64,
    pub retention_acked_days: u32,
    pub catalog_path: Option<String>,
    /// Another address for the Discord catalog.
    pub detectable_url: Option<String>,
    pub steam_path_override: Option<String>,
    pub start_at_login: bool,
    /// A minimized window hides in the system tray.
    pub minimize_to_tray: bool,
    /// A closed window hides in the system tray.
    pub close_to_tray: bool,
    pub update_channel: UpdateChannel,
    /// A token for development, in place of a login.
    pub dev_access_token: Option<String>,
}

impl Clone for AppConfig {
    fn clone(&self) -> (r: Self)
        ensures
            r == *self,
    {
        AppConfig {
            base_url: copy_opt(&self.base_url),
            api_root: copy_opt(&self.api_root),
            web_origin: copy_opt(&self.web_origin),
            service: self.service,
            db_path: copy_opt(&self.db_path),
            poll_interval_secs: self.poll_interval_secs,
            retention_acked_days: self.retention_acked_days,
            catalog_path: copy_opt(&self.catalog_path),
            detectable_url: copy_opt(&self.detectable_url),
            steam_path_override: copy_opt(&self.steam_path_override),
            start_at_login: self.start_at_login,
            minimize_to_tray: self.minimize_to_tray,
            close_to_tray: self.close_to_tray,
            update_channel: self.update_channel,
            dev_access_token: copy_opt(&self.dev_access_token),
        }
    }
}

impl Default for AppConfig {
    fn default() -> (r: Self)
        ensures
            r == (AppConfig {
                base_url: None,
                api_root: None,
                web_origin: None,
                service: None,
                db_path: None,
                poll_interval_secs: 3,
                retention_acked_days: 30,
                catalog_path: None,
                detectable_url: None,
                steam_path_override: None,
                start_at_login: false,
                minimize_to_tray: false,
                close_to_tray: false,
                update_channel: UpdateChannel::Stable,
                dev_access_token: None,
            }),
    {
        AppConfig {
            base_url: None,
            api_root: None,
            web_origin: None,
            service: None,
            db_path: None,
            poll_interval_secs: 3,
            retention_acked_days: 30,
            catalog_path: None,
            detectable_url: None,
            steam_path_override: None,
            start_at_login: false,
            minimize_to_tray: false,
            close_to_tray: false,
            update_channel: UpdateChannel::Stable,
            dev_access_token: None,
        }
    }
}

/// `path` below a root, whose slashes at the end do not count; none without a
/// root.
pub open spec fn below(root: Option<String>, path: Seq<char>) -> Option<Seq<char>> {
    match root {
        Some(r) => Some(text::trim_end(r@, CharSet::Slash) + path),
        None => None,
    }
}

fn path_below(root: &Option<String>, path: &str) -> (r: Option<String>)
    ensures
        text::opt_view(r) == below(*root, path@),
{
    match root {
        Some(r) => {
            let t = trim_end_of(r.as_str(), CharSet::Slash);
            Some(join2(t.as_str(), path))
        },
        None => None,
    }
}

/// A setting that is there and not empty.
pub open spec fn given(s: Option<String>) -> bool {
    s is Some && s->0@.len() > 0
}

fn is_given(s: &Option<String>) -> (r: bool)
    ensures
        r == given(*s),
{
    match s {
        Some(t) => t.as_str().unicode_len() > 0,
        None => false,
    }
}

/// What is asked for consent.
pub open spec fn authorize_pairs(
    redirect_uri: Seq<char>,
    state: Seq<char>,
    code_challenge: Seq<char>,
    device_id: Seq<char>,
) -> Seq<(Seq<char>, Seq<char>)> {
    seq![
        ("response_type"@, "code"@),
        ("client_id"@, "qmonitor"@),
        ("redirect_uri"@, redirect_uri),
        ("state"@, state),
        ("scope"@, "qmonitor"@),
        ("code_challenge"@, code_challenge),
        ("code_challenge_method"@, "S256"@),
        ("device_id"@, device_id),
    ]
}

/// What was trimmed is not longer than before.
proof fn lemma_trim_shorter(s: Seq<char>, set: CharSet)
    ensures
        text::trim_end(s, set).len() <= s.len(),
    decreases s.len(),
{
    if s.len() > 0 && set.has(s.last()) {
        lemma_trim_shorter(s.drop_last(), set);
    }
}

impl AppConfig {
    /// Where ended sessions are pushed.
    pub fn webhook_url(&self) -> (r: Option<String>)
        ensures
            text::opt_view(r) == below(self.api_root, WEBHOOK_PATH@),
    {
        path_below(&self.api_root, WEBHOOK_PATH)
    }

    /// Where tokens come from.
    pub fn token_url(&self) -> (r: Option<String>)
        ensures
            text::opt_view(r) == below(self.api_root, OAUTH_TOKEN_PATH@),
    {
        path_below(&self.api_root, OAUTH_TOKEN_PATH)
    }

    /// Where tokens are revoked.
    pub fn revoke_url(&self) -> (r: Option<String>)
        ensures
            text::opt_view(r) == below(self.api_root, OAUTH_REVOKE_PATH@),
    {
        path_below(&self.api_root, OAUTH_REVOKE_PATH)
    }

    /// Where the user gives consent, with what is asked for in the query. There
    /// is none without a web origin, and none where it makes no web address.
    pub fn authorize_url(
        &self,
        redirect_uri: &str,
        state: &str,
        code_challenge: &str,
        device_id: &str,
    ) -> (r: Option<String>)
        requires
            redirect_uri@.len() <= web::PART_LIMIT,
            state@.len() <= web::PART_LIMIT,
            code_challenge@.len() <= web::PART_LIMIT,
            device_id@.len() <= web::PART_LIMIT,
            self.web_origin is Some ==> self.web_origin->0@.len() < web::PART_LIMIT - 100,
        ensures
            ({
                let base = below(self.web_origin, OAUTH_AUTHORIZE_PATH@);
                let asked = authorize_pairs(redirect_uri@, state@, code_challenge@, device_id@);
                &&& r is Some <==> base is Some && web::url_refusal(base->0) is None
                &&& r is Some ==> web::url_with_pairs(base->0, asked) == Some(r->0@)
                &&& r is Some && web::is_web(base->0) ==> web::url_pairs(r->0@)
                    == web::url_pairs(base->0) + asked
            }),
    {
        let base = match path_below(&self.web_origin, OAUTH_AUTHORIZE_PATH) {
            Some(b) => b,
            None => {
                return None;
            },
        };
        let mut pairs: Vec<(&str, &str)> = Vec::new();
        pairs.push(("response_type", "code"));
        pairs.push(("client_id", "qmonitor"));
        pairs.push(("redirect_uri", redirect_uri));
        pairs.push(("state", state));
        pairs.push(("scope", "qmonitor"));
        pairs.push(("code_challenge", code_challenge));
        pairs.push(("code_challenge_method", "S256"));
        pairs.push(("device_id", device_id));
        assert(web::str_pair_views(pairs@) == authorize_pairs(
            redirect_uri@,
            state@,
            code_challenge@,
            device_id@,
        ));
        proof {
            reveal_strlit("/oauth/qmonitor/authorize");
            lemma_trim_shorter(self.web_origin->0@, CharSet::Slash);
            reveal_strlit("response_type");
            reveal_strlit("client_id");
            reveal_strlit("redirect_uri");
            reveal_strlit("state");
            reveal_strlit("scope");
            reveal_strlit("code_challenge");
            reveal_strlit("code_challenge_method");
            reveal_strlit("device_id");
            reveal_strlit("code");
            reveal_strlit("qmonitor");
            reveal_strlit("S256");
        }
        with_query(base.as_str(), &pairs)
    }

    /// The address, the root and the origin of the service are known.
    pub open spec fn onboarded(&self) -> bool {
        given(self.base_url) && given(self.api_root) && given(self.web_origin)
    }

    /// Whether the address, the root and the origin of the service are known.
    pub fn is_onboarded(&self) -> (r: bool)
        ensures
            r == self.onboarded(),
    {
        is_given(&self.base_url) && is_given(&self.api_root) && is_given(&self.web_origin)
    }

    /// Whether the address of the service was given and found good.
    pub fn has_base_url(&self) -> (r: bool)
        ensures
            r == self.onboarded(),
    {
        self.is_onboarded()
    }

    /// The place of the database.
    pub open spec fn db_place(&self, default: Seq<char>) -> Seq<char> {
        match self.db_path {
            Some(p) => p@,
            None => default,
        }
    }

    /// The place of the database: the given one, or else `default`.
    pub fn resolved_db_path(&self, default: &str) -> (r: String)
        ensures
            r@ == self.db_place(default@),
    {
        match &self.db_path {
            Some(p) => p.clone(),
            None => default.to_owned(),
        }
    }

    /// The address of the Discord catalog.
    pub open spec fn catalog_url(&self) -> Seq<char> {
        match self.detectable_url {
            Some(u) => if text::trim(u@, CharSet::White).len() > 0 {
                text::trim(u@, CharSet::White)
            } else {
                DEFAULT_DETECTABLE_URL@
            },
            None => DEFAULT_DETECTABLE_URL@,
        }
    }

    /// The address of the Discord catalog: the given one, or else that of
    /// Discord.
    pub fn resolved_detectable_url(&self) -> (r: String)
        ensures
            r@ == self.catalog_url(),
    {
        match &self.detectable_url {
            Some(u) => {
                let t = trim_of(u.as_str(), CharSet::White);
                if t.as_str().unicode_len() > 0 {
                    t
                } else {
                    DEFAULT_DETECTABLE_URL.to_owned()
                }
            },
            None => DEFAULT_DETECTABLE_URL.to_owned(),
        }
    }

    /// Takes a token for development; an empty one takes it away.
    pub fn set_dev_token(&mut self, token: String)
        ensures
            *final(self) == (AppConfig {
                dev_access_token: if token@.len() > 0 {
                    Some(token)
                } else {
                    None
                },
                ..*old(self)
            }),
    {
        if token.as_str().unicode_len() > 0 {
            self.dev_access_token = Some(token);
        } else {
            self.dev_access_token = None;
        }
    }

    /// Forgets what is known of the service.
    pub fn clear_service(&mut self)
        ensures
            *final(self) == (AppConfig {
                api_root: None,
                web_origin: None,
                service: None,
                ..*old(self)
            }),
    {
        self.api_root = None;
        self.web_origin = None;
        self.service = None;
    }

    /// Whether the address of the service was given, other than as white space.
    pub fn names_service(&self) -> (r: bool)
        ensures
            r == (self.base_url is Some && text::trim(
                self.base_url->0@,
                CharSet::White,
            ).len() > 0),
    {
        match &self.base_url {
            Some(u) => {
                let t = trim_of(u.as_str(), CharSet::White);
                t.as_str().unicode_len() > 0
            },
            None => false,
        }
    }

    /// What changes when `next` takes the place of these settings: whether the
    /// catalog has another address, and whether updates come from another
    /// channel.
    pub fn changes_to(&self, next: &AppConfig) -> (r: (bool, bool))
        ensures
            r.0 == (self.catalog_url() != next.catalog_url()),
            r.1 == (self.update_channel != next.update_channel),
    {
        let a = self.resolved_detectable_url();
        let b = next.resolved_detectable_url();
        (!same(a.as_str(), b.as_str()), self.update_channel != next.update_channel)
    }

    /// How often to look, in seconds: at least one.
    pub fn poll_secs(&self) -> (r: u64)
        ensures
            r == (if self.poll_interval_secs >= 1 {
                self.poll_interval_secs
            } else {
                1
            }),
    {
        if self.poll_interval_secs >= 1 {
            self.poll_interval_secs
        } else {
            1
        }
    }
}

} // verus!
