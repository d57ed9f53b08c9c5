//! Pushing ended sessions to the webhook.

use vstd::prelude::*;

use crate::db;
use crate::db::SessionRow;
use crate::device;
use crate::text;
use crate::text::{copy_opt, join2};
use crate::time;

verus! {

/// How long a connection may take to be made, in seconds.
pub const CONNECT_TIMEOUT: u64 = 8;

/// How long a request may take, in seconds.
pub const REQUEST_TIMEOUT: u64 = 15;

/// How long an idle connection is kept, in seconds.
pub const POOL_IDLE_TIMEOUT: u64 = 60;

/// The machine that a session was played on.
#[derive(Debug)]
pub struct HostInfo {
    pub os: String,
    pub hostname: String,
}

/// What is pushed of a session.
#[derive(Debug)]
pub struct SessionPayload {
    pub schema_version: u32,
    pub session_id: String,
    pub source: String,
    pub steam_app_id: Option<u32>,
    pub title: String,
    pub exe: Option<String>,
    pub started_at: String,
    pub ended_at: String,
    pub duration_secs: i64,
    pub host: HostInfo,
}

/// The mathematical value of a `SessionPayload`.
#[verifier::ext_equal]
pub struct PayloadView {
    pub schema_version: u32,
    pub session_id: Seq<char>,
    pub source: Seq<char>,
    pub steam_app_id: Option<u32>,
    pub title: Seq<char>,
    pub exe: Option<Seq<char>>,
    pub started_at: Seq<char>,
    pub ended_at: Seq<char>,
    pub duration_secs: i64,
    pub os: Seq<char>,
    pub hostname: Seq<char>,
}

impl View for SessionPayload {
    type V = PayloadView;

    open spec fn view(&self) -> PayloadView {
        PayloadView {
            schema_version: self.schema_version,
            session_id: self.session_id@,
            source: self.source@,
            steam_app_id: self.steam_app_id,
            title: self.title@,
            exe: text::opt_view(self.exe),
            started_at: self.started_at@,
            ended_at: self.ended_at@,
            duration_secs: self.duration_secs,
            os: self.host.os@,
            hostname: self.host.hostname@,
        }
    }
}

/// What is pushed of a session; nothing of one that has not ended.
pub open spec fn payload(
    row: db::RowView,
    os: Seq<char>,
    hostname: Option<Seq<char>>,
) -> Option<PayloadView> {
    match row.ended_at {
        Some(end) => Some(
            PayloadView {
                schema_version: 1,
                session_id: row.id,
                source: row.source,
                steam_app_id: row.steam_app_id,
                title: row.title,
                exe: row.exe,
                started_at: time::time_text(row.started_at),
                ended_at: time::time_text(end),
                duration_secs: match row.duration_secs {
                    Some(n) => n,
                    None => 0,
                },
                os,
                hostname: device::host_or_unknown(hostname),
            },
        ),
        None => None,
    }
}

impl SessionPayload {
    /// What is pushed of a session that was played on this machine; nothing of
    /// one that has not ended.
    pub fn from_row(row: &SessionRow, os: &str, hostname: Option<&str>) -> (r: Option<Self>)
        ensures
            ({
                let host = match hostname {
                    Some(h) => Some(h@),
                    None => None,
                };
                match r {
                    Some(p) => payload(row@, os@, host) == Some(p@),
                    None => payload(row@, os@, host) is None,
                }
            }),
            r is Some <==> row.ended_at is Some,
            r is Some ==> {
                let p = r->0;
                &&& p.schema_version == 1
                &&& p.session_id@ == row.id@
                &&& p.title@ == row.title@
                &&& p.source@ == row.source@
                &&& p.steam_app_id == row.steam_app_id
                &&& text::opt_view(p.exe) == text::opt_view(row.exe)
                &&& p.started_at@ == time::time_text(row.started_at@)
                &&& p.ended_at@ == time::time_text(row.ended_at->0@)
                &&& row.duration_secs is Some ==> p.duration_secs == row.duration_secs->0
                &&& row.duration_secs is None ==> p.duration_secs == 0
                &&& p.host.os@ == os@
                &&& hostname is Some ==> p.host.hostname@ == hostname->0@
                &&& hostname is None ==> p.host.hostname@ == "unknown"@
            },
    {
        match row.ended_at {
            Some(end) => Some(
                SessionPayload {
                    schema_version: 1,
                    session_id: row.id.clone(),
                    source: row.source.clone(),
                    steam_app_id: row.steam_app_id,
                    title: row.title.clone(),
                    exe: copy_opt(&row.exe),
                    started_at: row.started_at.to_rfc3339(),
                    ended_at: end.to_rfc3339(),
                    duration_secs: match row.duration_secs {
                        Some(n) => n,
                        None => 0,
                    },
                    host: HostInfo {
                        os: os.to_owned(),
                        hostname: match hostname {
                            Some(h) => h.to_owned(),
                            None => "unknown".to_owned(),
                        },
                    },
                },
            ),
            None => None,
        }
    }
}

/// A session that is due can be pushed: it has what the webhook is told.
pub proof fn law_due_has_payload(
    row: db::RowView,
    now: int,
    os: Seq<char>,
    hostname: Option<Seq<char>>,
)
    requires
        db::is_due(row, now),
    ensures
        payload(row, os, hostname) is Some,
{
}

/// The webhook is told of the row what stands in it: two rows with the same payload
/// are the same session, of the same game, from the same source, with the same
/// title, executable, times and length.
pub proof fn law_payload_tells_the_row(
    row: db::RowView,
    os: Seq<char>,
    hostname: Option<Seq<char>>,
)
    requires
        row.ended_at is Some,
    ensures
        payload(row, os, hostname) is Some,
        ({
            let p = payload(row, os, hostname)->0;
            &&& p.schema_version == 1
            &&& p.session_id == row.id
            &&& p.title == row.title
            &&& p.source == row.source
            &&& p.steam_app_id == row.steam_app_id
            &&& p.exe == row.exe
            &&& p.started_at == time::time_text(row.started_at)
            &&& p.ended_at == time::time_text(row.ended_at->0)
            &&& p.duration_secs == (if row.duration_secs is Some {
                row.duration_secs->0
            } else {
                0
            })
            &&& p.os == os
            &&& hostname is Some ==> p.hostname == hostname->0
            &&& hostname is None ==> p.hostname == "unknown"@
        }),
{
}

/// What is pushed does not depend on whether, when and how often a push was tried.
pub proof fn law_payload_is_the_same_again(
    row: db::RowView,
    other: db::RowView,
    os: Seq<char>,
    hostname: Option<Seq<char>>,
)
    requires
        other == (db::RowView {
            push_status: other.push_status,
            acked_at: other.acked_at,
            retry_count: other.retry_count,
            next_retry_at: other.next_retry_at,
            last_error: other.last_error,
            identity_id: other.identity_id,
            ..row
        }),
    ensures
        payload(row, os, hostname) == payload(other, os, hostname),
{
}

/// A session that goes on is not pushed.
pub proof fn law_no_payload_before_the_end(
    row: db::RowView,
    os: Seq<char>,
    hostname: Option<Seq<char>>,
)
    requires
        row.ended_at is None,
    ensures
        payload(row, os, hostname) is None,
{
}

/// A status that tells success.
pub open spec fn is_success(status: u16) -> bool {
    200 <= status < 300
}

/// The status of a reply from a server: its number, and how it is shown.
#[derive(Debug)]
pub struct HttpStatus {
    pub code: u16,
    pub shown: String,
}

impl HttpStatus {
    /// Whether the status tells success.
    pub fn succeeded(&self) -> (r: bool)
        ensures
            r == is_success(self.code),
    {
        200 <= self.code && self.code < 300
    }
}

/// What to do after a session was posted.
#[derive(Debug)]
pub enum PushStep {
    /// The push is over.
    Done(Result<(), String>),
    /// Get a new access token, and post once more.
    Refresh,
}

/// The push failed with this status.
pub open spec fn webhook_error(shown: Seq<char>) -> Seq<char> {
    "webhook HTTP "@ + shown
}

/// What to do after the first post: it is over, unless the token was refused.
pub fn after_post(status: &HttpStatus) -> (r: PushStep)
    ensures
        200 <= status.code < 300 ==> r == PushStep::Done(Ok::<(), String>(())),
        status.code == 401 ==> r == PushStep::Refresh,
        match r {
            PushStep::Done(Ok(())) => is_success(status.code),
            PushStep::Refresh => status.code == 401,
            PushStep::Done(Err(e)) => !is_success(status.code) && status.code != 401 && e@
                == webhook_error(status.shown@),
        },
{
    if status.succeeded() {
        PushStep::Done(Ok(()))
    } else if status.code == 401 {
        PushStep::Refresh
    } else {
        PushStep::Done(Err(join2("webhook HTTP ", status.shown.as_str())))
    }
}

/// How the push ended, after the post with a new token.
pub fn after_retry(status: &HttpStatus) -> (r: Result<(), String>)
    ensures
        200 <= status.code < 300 <==> r is Ok,
        match r {
            Ok(()) => is_success(status.code),
            Err(e) => !is_success(status.code) && e@ == webhook_error(status.shown@),
        },
{
    if status.succeeded() {
        Ok(())
    } else {
        Err(join2("webhook HTTP ", status.shown.as_str()))
    }
}

/// The value of the header that carries an access token.
pub fn bearer(token: &str) -> (r: String)
    ensures
        r@ == "Bearer "@ + token@,
{
    join2("Bearer ", token)
}

} // verus!
