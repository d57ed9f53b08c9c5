//! What the workers decide: which processes to look at, what was detected, when
//! to push, and what they note of their work.

use vstd::prelude::*;

use crate::auth;
use crate::auth::{get_access_token, TokenCache};
use crate::config;
use crate::config::AppConfig;
use crate::detect;
use crate::detect::primary_identity;
use crate::health;
use crate::health::RuntimeHealth;
use crate::identity;
use crate::identity::resolver;
use crate::identity::resolver::IdentityPipeline;
use crate::identity::{PendingDetection, ProcessSnapshot};
use crate::live_session::DetectSample;
use crate::persist::DbView;
use crate::session::AppState;
use crate::time::Timestamp;

verus! {

/// How long looking at the processes may take, in seconds.
pub const DETECT_BLOCKING_TIMEOUT: u64 = 3;

/// How often to look for something to push, in seconds.
pub const PUSH_POLL: u64 = 2;

/// How often the tooltip is renewed, in seconds.
pub const HEALTH_PULSE: u64 = 3;

// ---------------------------------------------------------------------------
// Detection
// ---------------------------------------------------------------------------

/// What came of looking at the processes.
#[derive(Debug)]
pub enum Snapshot {
    /// The processes, and the one in the foreground.
    Taken(Vec<ProcessSnapshot>, Option<u32>),
    Failed,
    TimedOut,
}

/// The processes that were seen last.
pub struct LastSeen {
    pub processes: Vec<ProcessSnapshot>,
    pub foreground: Option<u32>,
}

impl LastSeen {
    /// Nothing was seen.
    pub fn new() -> (r: Self)
        ensures
            r.processes@.len() == 0,
            r.foreground is None,
    {
        LastSeen { processes: Vec::new(), foreground: None }
    }

    /// Notes what came of looking: what was seen before stays where nothing new
    /// was seen. A timeout is counted.
    pub fn note(&mut self, snapshot: Snapshot, health: &mut RuntimeHealth)
        requires
            old(health).detect_timeouts < u64::MAX,
        ensures
            match snapshot {
                Snapshot::Taken(p, fg) => final(self).processes == p && final(self).foreground
                    == fg && *final(health) == *old(health),
                Snapshot::Failed => *final(self) == *old(self) && *final(health) == *old(health),
                Snapshot::TimedOut => *final(self) == *old(self) && *final(health) == (
                RuntimeHealth {
                    detect_timeouts: (old(health).detect_timeouts + 1) as u64,
                    ..*old(health)
                }),
            },
    {
        match snapshot {
            Snapshot::Taken(p, fg) => {
                self.processes = p;
                self.foreground = fg;
            },
            Snapshot::Failed => {},
            Snapshot::TimedOut => {
                health.detect_timeouts = health.detect_timeouts + 1;
            },
        }
    }
}

/// The game that counts among what was found.
pub open spec fn primary_game(
    found: Seq<identity::IdentityView>,
    foreground: Option<u32>,
    procs: Seq<identity::ProcessView>,
) -> Option<identity::IdentityView> {
    match detect::primary_index(found, foreground, procs) {
        Some(i) => Some(found[i]),
        None => None,
    }
}

/// With these fingerprints and answers of the crowd, `game` is the game that
/// counts, and `pending` waits for the user.
pub open spec fn sampled(
    pipeline: IdentityPipeline,
    procs: Seq<identity::ProcessView>,
    foreground: Option<u32>,
    fps: Seq<Seq<char>>,
    answers: Seq<Option<identity::IdentityView>>,
    game: Option<identity::IdentityView>,
    pending: Seq<identity::PendingView>,
) -> bool {
    let found = resolver::resolved(pipeline.rules(), procs, fps, answers);
    &&& resolver::fingerprinted(procs, fps)
    &&& pipeline.asked(procs, fps, answers)
    &&& game == primary_game(found.identities, foreground, procs)
    &&& pending == found.pending
}

/// What was detected at `now`, and what waits for the user.
pub fn detect_sample(
    pipeline: &IdentityPipeline,
    processes: &[ProcessSnapshot],
    foreground: Option<u32>,
    now: Timestamp,
) -> (r: (DetectSample, Vec<PendingDetection>))
    ensures
        r.0.observed_at == now,
        exists|fps: Seq<Seq<char>>, answers: Seq<Option<identity::IdentityView>>| #[trigger]
            sampled(
                *pipeline,
                identity::proc_views(processes@),
                foreground,
                fps,
                answers,
                r.0.game(),
                identity::pending_views(r.1@),
            ),
{
    let (identities, pending) = pipeline.resolve_running(processes);
    let ghost procs = identity::proc_views(processes@);
    let ghost found = resolver::Findings {
        identities: identity::id_views(identities@),
        pending: identity::pending_views(pending@),
    };
    let ghost (fps, answers) = choose|
        fps: Seq<Seq<char>>,
        answers: Seq<Option<identity::IdentityView>>,
    |
        {
            &&& resolver::fingerprinted(procs, fps)
            &&& pipeline.asked(procs, fps, answers)
            &&& found == #[trigger] resolver::resolved(pipeline.rules(), procs, fps, answers)
        };
    let primary = match primary_identity(identities.as_slice(), foreground, processes) {
        Some(i) => Some(i.clone()),
        None => None,
    };
    let r = (DetectSample { observed_at: now, primary }, pending);
    assert(sampled(
        *pipeline,
        identity::proc_views(processes@),
        foreground,
        fps,
        answers,
        r.0.game(),
        identity::pending_views(r.1@),
    ));
    r
}

impl AppState {
    /// Takes in what was detected.
    pub fn take_sample(&mut self, sample: &DetectSample, pending: Vec<PendingDetection>)
        ensures
            final(self).pending_detections == pending,
            exists|fallback: int| #[trigger]
                old(self).live@.applied(sample.game(), sample.observed_at@, fallback)
                    == final(self).live@,
            final(self).health == (RuntimeHealth {
                last_detect_at: Some(sample.observed_at),
                ..old(self).health
            }),
            final(self).config == old(self).config,
            final(self).pipeline == old(self).pipeline,
            final(self).db_view == old(self).db_view,
            final(self).ignored_titles == old(self).ignored_titles,
            final(self).last_error == old(self).last_error,
    {
        self.pending_detections = pending;
        self.live.apply(sample);
        self.health.last_detect_at = Some(sample.observed_at);
    }

    /// Notes that the connection was given up.
    pub fn note_poisoned(&mut self, error: String)
        ensures
            final(self).last_error == Some(error),
            final(self).health == (RuntimeHealth {
                db_ok: false,
                last_error: Some(error),
                ..old(self).health
            }),
            !final(self).db_view.turso_ok,
            final(self).db_view.pending_count == 0,
            final(self).db_view.active is None,
            final(self).db_view.history@.len() == 0,
            final(self).config == old(self).config,
            final(self).pipeline == old(self).pipeline,
            final(self).live == old(self).live,
            final(self).ignored_titles == old(self).ignored_titles,
            final(self).pending_detections == old(self).pending_detections,
    {
        self.last_error = Some(error.clone());
        self.health.db_ok = false;
        self.health.last_error = Some(error);
        self.db_view = DbView::empty();
    }

    /// Notes how a push ended.
    pub fn note_push(&mut self, result: &Result<(), String>, now: Timestamp)
        ensures
            final(self).health == (match *result {
                Ok(()) => RuntimeHealth { last_push_at: Some(now), ..old(self).health },
                Err(_) => old(self).health,
            }),
            final(self).last_error == (match *result {
                Ok(()) => old(self).last_error,
                Err(e) => Some(e),
            }),
            final(self).config == old(self).config,
            final(self).pipeline == old(self).pipeline,
            final(self).live == old(self).live,
            final(self).db_view == old(self).db_view,
            final(self).ignored_titles == old(self).ignored_titles,
            final(self).pending_detections == old(self).pending_detections,
    {
        match result {
            Ok(()) => {
                self.health.last_push_at = Some(now);
            },
            Err(e) => {
                self.last_error = Some(e.clone());
            },
        }
    }
}

// ---------------------------------------------------------------------------
// The database
// ---------------------------------------------------------------------------

impl RuntimeHealth {
    /// Notes that the database is opened for the `generation`-th time.
    pub fn begin_generation(&mut self, generation: u64)
        requires
            old(self).db_reconnects < u64::MAX,
        ensures
            *final(self) == (if generation > 1 {
                RuntimeHealth {
                    db_reconnects: (old(self).db_reconnects + 1) as u64,
                    db_ok: false,
                    db_generation: generation,
                    ..*old(self)
                }
            } else {
                *old(self)
            }),
    {
        if generation > 1 {
            self.db_reconnects = self.db_reconnects + 1;
            self.db_ok = false;
            self.db_generation = generation;
        }
    }

    /// Notes that the database is open.
    pub fn note_opened(&mut self, generation: u64, now: Timestamp)
        ensures
            *final(self) == (RuntimeHealth {
                db_ok: true,
                db_generation: generation,
                last_persist_at: Some(now),
                ..*old(self)
            }),
    {
        self.db_ok = true;
        self.db_generation = generation;
        self.last_persist_at = Some(now);
    }
}

// ---------------------------------------------------------------------------
// Pushing
// ---------------------------------------------------------------------------

/// Where to push and with which token; what to say where one of them is missing.
pub fn push_target(cfg: &AppConfig, cache: &TokenCache) -> (r: Result<(String, String), String>)
    ensures
        match r {
            Ok((url, token)) => {
                &&& config::below(cfg.api_root, config::WEBHOOK_PATH@) == Some(url@)
                &&& auth::access_token(*cfg, *cache) == Some(token@)
            },
            Err(e) => (cfg.api_root is None || auth::access_token(*cfg, *cache) is None) && e@
                == "webhook or token missing"@,
        },
{
    match (cfg.webhook_url(), get_access_token(cfg, cache)) {
        (Some(url), Some(token)) => Ok((url, token)),
        _ => Err("webhook or token missing".to_owned()),
    }
}

/// Whether anything can be pushed.
pub fn can_push(cfg: &AppConfig, cache: &TokenCache) -> (r: bool)
    ensures
        r == (cfg.api_root is Some && auth::access_token(*cfg, *cache) is Some),
{
    cfg.webhook_url().is_some() && get_access_token(cfg, cache).is_some()
}

/// Whether the log files are to be looked through, this many seconds after the
/// last time.
pub fn prune_due(elapsed_secs: u64) -> (r: bool)
    ensures
        r == (elapsed_secs >= health::LOG_PRUNE_EVERY),
{
    elapsed_secs >= health::LOG_PRUNE_EVERY
}

} // verus!
