//! Game-session tracking: which running process is a game, when a play session
//! starts and ends, and how finished sessions reach the web service.

pub mod auth;
pub mod config;
pub mod db;
pub mod db_laws;
pub mod detect;
pub mod device;
pub mod digest;
pub mod health;
pub mod host;
pub mod identity;
pub mod keyed;
pub mod live_session;
pub mod number;
pub mod oauth_loopback;
pub mod order;
pub mod persist;
pub mod persist_laws;
pub mod pkce;
pub mod push;
pub mod random;
pub mod runtime;
pub mod runtime_laws;
pub mod search;
pub mod service_laws;
pub mod session;
pub mod session_laws;
pub mod split;
pub mod text;
pub mod text_laws;
pub mod time;
pub mod update_check;
pub mod user_laws;
pub mod value_laws;
pub mod web;
