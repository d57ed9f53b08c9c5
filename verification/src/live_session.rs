//! The game that is being played now, in memory. Detection always updates this;
//! storing it is best-effort.

use vstd::prelude::*;

use crate::identity;
use crate::identity::GameIdentity;
use crate::text;
use crate::text::{copy_opt, same};
use crate::time;
use crate::time::Timestamp;

verus! {

/// How long a game may be missing before it counts as quit, in seconds.
pub const MISS_GRACE: i64 = 8;

/// A longer time without a sample, in seconds, counts as sleep: the session is
/// split.
pub const SLEEP_SPLIT: i64 = 30;

/// A number of seconds in nanoseconds.
pub open spec fn secs(n: i64) -> int {
    n * time::NANOS
}

/// What was detected at one time.
#[derive(Debug)]
pub struct DetectSample {
    pub observed_at: Timestamp,
    pub primary: Option<GameIdentity>,
}

impl DetectSample {
    /// A sample of now without a game.
    pub fn empty() -> (r: Self)
        ensures
            r.primary is None,
            0 <= r.observed_at@,
    {
        DetectSample { observed_at: Timestamp::now(), primary: None }
    }

    /// The value of the game.
    pub open spec fn game(&self) -> Option<identity::IdentityView> {
        opt_identity(self.primary)
    }
}

/// The value of an optional identity.
pub open spec fn opt_identity(i: Option<GameIdentity>) -> Option<identity::IdentityView> {
    match i {
        Some(i) => Some(i@),
        None => None,
    }
}

/// A session that has ended and is not stored yet.
#[derive(Debug)]
pub struct PendingEnd {
    pub identity: GameIdentity,
    pub db_session_id: Option<String>,
    pub started_at: Timestamp,
    pub ended_at: Timestamp,
}

/// The mathematical value of a `PendingEnd`.
#[verifier::ext_equal]
pub struct EndView {
    pub identity: identity::IdentityView,
    pub db_session_id: Option<Seq<char>>,
    pub started_at: int,
    pub ended_at: int,
}

impl View for PendingEnd {
    type V = EndView;

    open spec fn view(&self) -> EndView {
        EndView {
            identity: self.identity@,
            db_session_id: text::opt_view(self.db_session_id),
            started_at: self.started_at@,
            ended_at: self.ended_at@,
        }
    }
}

impl Clone for PendingEnd {
    fn clone(&self) -> (r: Self)
        ensures
            r == *self,
    {
        PendingEnd {
            identity: self.identity.clone(),
            db_session_id: copy_opt(&self.db_session_id),
            started_at: self.started_at,
            ended_at: self.ended_at,
        }
    }
}

/// The values of a list of ends.
pub open spec fn end_views(s: Seq<PendingEnd>) -> Seq<EndView> {
    s.map_values(|e: PendingEnd| e@)
}

/// The session of the game that is being played, and those that have ended and
/// are not stored yet.
#[derive(Debug)]
pub struct LiveSession {
    pub identity: Option<GameIdentity>,
    pub started_at: Option<Timestamp>,
    pub last_seen_at: Option<Timestamp>,
    pub db_session_id: Option<String>,
    pub pending_ends: Vec<PendingEnd>,
    pub last_tick_at: Option<Timestamp>,
}

/// The mathematical value of a `LiveSession`.
#[verifier::ext_equal]
pub struct LiveView {
    pub identity: Option<identity::IdentityView>,
    pub started_at: Option<int>,
    pub last_seen_at: Option<int>,
    pub db_session_id: Option<Seq<char>>,
    pub pending_ends: Seq<EndView>,
    pub last_tick_at: Option<int>,
}

impl View for LiveSession {
    type V = LiveView;

    open spec fn view(&self) -> LiveView {
        LiveView {
            identity: opt_identity(self.identity),
            started_at: time::opt_time(self.started_at),
            last_seen_at: time::opt_time(self.last_seen_at),
            db_session_id: text::opt_view(self.db_session_id),
            pending_ends: end_views(self.pending_ends@),
            last_tick_at: time::opt_time(self.last_tick_at),
        }
    }
}

impl LiveView {
    /// No game and no time of one.
    pub open spec fn cleared(self) -> LiveView {
        LiveView {
            identity: None,
            started_at: None,
            last_seen_at: None,
            db_session_id: None,
            ..self
        }
    }

    /// When the session began: a session without a beginning began when the game
    /// was last seen, and one that was never seen, at `fallback`.
    pub open spec fn start_or(self, fallback: int) -> int {
        match self.started_at {
            Some(t) => t,
            None => match self.last_seen_at {
                Some(t) => t,
                None => fallback,
            },
        }
    }

    /// The end of the session: it ended when the game was last seen.
    pub open spec fn ending(self, fallback: int) -> EndView
        recommends
            self.identity is Some,
    {
        EndView {
            identity: self.identity->0,
            db_session_id: self.db_session_id,
            started_at: self.start_or(fallback),
            ended_at: match self.last_seen_at {
                Some(t) => t,
                None => self.start_or(fallback),
            },
        }
    }

    /// The session is over: its end is queued.
    pub open spec fn ended(self, fallback: int) -> LiveView {
        if self.identity is None {
            self
        } else {
            LiveView {
                pending_ends: self.pending_ends.push(self.ending(fallback)),
                ..self.cleared()
            }
        }
    }

    /// After the time of the last sample has been looked at: a gap that is too
    /// long ends the session.
    pub open spec fn woken(self, now: int, fallback: int) -> LiveView {
        let ticked = LiveView { last_tick_at: Some(now), ..self };
        if self.last_tick_at is Some && time::since(now, self.last_tick_at->0) > secs(SLEEP_SPLIT) {
            ticked.ended(fallback)
        } else {
            ticked
        }
    }

    /// A sample with a game: the same game goes on; another one ends the session
    /// and begins its own.
    pub open spec fn seen(self, game: identity::IdentityView, now: int, fallback: int) -> LiveView {
        if self.identity is Some && self.identity->0.id == game.id {
            LiveView { identity: Some(game), last_seen_at: Some(now), ..self }
        } else {
            LiveView {
                identity: Some(game),
                started_at: Some(now),
                last_seen_at: Some(now),
                db_session_id: None,
                ..self.ended(fallback)
            }
        }
    }

    /// A sample without a game: the session ends when the game has been missing
    /// for the time of grace.
    pub open spec fn missed(self, now: int, fallback: int) -> LiveView {
        let last = match self.last_seen_at {
            Some(t) => t,
            None => now,
        };
        if self.identity is Some && time::since(now, last) >= secs(MISS_GRACE) {
            self.ended(fallback)
        } else {
            self
        }
    }

    /// After a sample.
    pub open spec fn applied(
        self,
        game: Option<identity::IdentityView>,
        now: int,
        fallback: int,
    ) -> LiveView {
        let awake = self.woken(now, fallback);
        match game {
            Some(g) => awake.seen(g, now, fallback),
            None => awake.missed(now, fallback),
        }
    }

    /// A game that is being played has a beginning and was seen since.
    pub open spec fn consistent(self) -> bool {
        self.identity is Some ==> {
            &&& self.started_at is Some
            &&& self.last_seen_at is Some
        }
    }
}

impl LiveSession {
    /// No game, and nothing to store.
    pub fn new() -> (r: Self)
        ensures
            r@ == (LiveView {
                identity: None,
                started_at: None,
                last_seen_at: None,
                db_session_id: None,
                pending_ends: Seq::empty(),
                last_tick_at: None,
            }),
    {
        let r = LiveSession {
            identity: None,
            started_at: None,
            last_seen_at: None,
            db_session_id: None,
            pending_ends: Vec::new(),
            last_tick_at: None,
        };
        assert(r@.pending_ends == Seq::<EndView>::empty());
        r
    }

    /// The id of the game.
    pub fn identity_id(&self) -> (r: Option<&str>)
        ensures
            match r {
                Some(id) => self.identity is Some && id@ == self.identity->0.id@,
                None => self.identity is None,
            },
    {
        match &self.identity {
            Some(i) => Some(i.id.as_str()),
            None => None,
        }
    }

    /// Whether a game is being played.
    pub fn is_tracking(&self) -> (r: bool)
        ensures
            r == (self@.identity is Some),
    {
        self.identity.is_some()
    }

    /// Whether the game with this id is being played.
    pub fn is_tracking_id(&self, id: &str) -> (r: bool)
        ensures
            r == (self@.identity is Some && self@.identity->0.id == id@),
    {
        match &self.identity {
            Some(i) => same(i.id.as_str(), id),
            None => false,
        }
    }

    /// Takes in a sample, as of a clock that shows `fallback`.
    pub fn apply_at(&mut self, sample: &DetectSample, fallback: Timestamp)
        ensures
            final(self)@ == old(self)@.applied(sample.game(), sample.observed_at@, fallback@),
    {
        let now = sample.observed_at;
        let slept = match self.last_tick_at {
            Some(t) => now.nanos_since(&t) > SLEEP_SPLIT as i128 * time::NANOS,
            None => false,
        };
        self.last_tick_at = Some(now);
        if slept && self.identity.is_some() {
            self.queue_end(fallback);
        }
        let ghost awake = self@;
        assert(awake == old(self)@.woken(now@, fallback@));
        match &sample.primary {
            Some(primary) => {
                let goes_on = self.is_tracking_id(primary.id.as_str());
                if !goes_on {
                    self.queue_end(fallback);
                    self.started_at = Some(now);
                    self.db_session_id = None;
                }
                self.identity = Some(primary.clone());
                self.last_seen_at = Some(now);
            },
            None => {
                if self.identity.is_some() {
                    let last = match self.last_seen_at {
                        Some(t) => t,
                        None => now,
                    };
                    if now.nanos_since(&last) >= MISS_GRACE as i128 * time::NANOS {
                        self.queue_end(fallback);
                    }
                }
            },
        }
    }

    /// Takes in a sample. The clock counts only for a session that has neither a
    /// beginning nor a time when it was last seen.
    pub fn apply(&mut self, sample: &DetectSample)
        ensures
            exists|fallback: int| #[trigger]
                old(self)@.applied(sample.game(), sample.observed_at@, fallback) == final(self)@,
            old(self)@.consistent() ==> final(self)@ == old(self)@.applied(
                sample.game(),
                sample.observed_at@,
                0,
            ),
    {
        let fallback = Timestamp::now();
        proof {
            if self@.consistent() {
                law_clock_does_not_count(
                    self@,
                    sample.game(),
                    sample.observed_at@,
                    fallback@,
                    0,
                );
            }
        }
        self.apply_at(sample, fallback);
    }

    /// Forgets the game without ending its session.
    pub fn clear_identity(&mut self)
        ensures
            final(self)@ == old(self)@.cleared(),
            final(self).identity is None,
            final(self).started_at is None,
            final(self).last_seen_at is None,
            final(self).db_session_id is None,
            final(self).pending_ends@ == old(self).pending_ends@,
            final(self).last_tick_at == old(self).last_tick_at,
    {
        self.identity = None;
        self.started_at = None;
        self.last_seen_at = None;
        self.db_session_id = None;
    }

    fn queue_end(&mut self, fallback: Timestamp)
        ensures
            final(self)@ == old(self)@.ended(fallback@),
    {
        let ghost was = self@;
        let identity = match &self.identity {
            Some(i) => i.clone(),
            None => {
                return;
            },
        };
        let started_at = match self.started_at {
            Some(t) => t,
            None => match self.last_seen_at {
                Some(t) => t,
                None => fallback,
            },
        };
        let ended_at = match self.last_seen_at {
            Some(t) => t,
            None => started_at,
        };
        let end = PendingEnd {
            identity,
            db_session_id: copy_opt(&self.db_session_id),
            started_at,
            ended_at,
        };
        assert(end@ == was.ending(fallback@));
        self.clear_identity();
        self.pending_ends.push(end);
        assert(self@.pending_ends == was.pending_ends.push(end@));
    }
}

/// The clock does not count for a session that has a beginning and was seen.
pub proof fn law_clock_does_not_count(
    live: LiveView,
    game: Option<identity::IdentityView>,
    now: int,
    clock: int,
    other_clock: int,
)
    requires
        live.consistent(),
    ensures
        live.applied(game, now, clock) == live.applied(game, now, other_clock),
{
}

/// A sample keeps a session consistent.
pub proof fn law_consistent(
    live: LiveView,
    game: Option<identity::IdentityView>,
    now: int,
    clock: int,
)
    requires
        live.consistent(),
    ensures
        live.applied(game, now, clock).consistent(),
{
}

/// Ends that wait to be stored are neither lost nor reordered by a sample: what
/// waited still waits, in front of at most one new end, and that is the end of
/// the game that was being played, with the start that it had and the time when
/// it was last seen.
pub proof fn law_ends_are_kept(
    live: LiveView,
    game: Option<identity::IdentityView>,
    now: int,
    clock: int,
)
    ensures
        ({
            let after = live.applied(game, now, clock);
            ||| after.pending_ends == live.pending_ends
            ||| live.identity is Some && after.pending_ends == live.pending_ends.push(
                live.ending(clock),
            )
        }),
{
}

/// A sample adds no end or one. Where it adds one, that is the end of the game that
/// was being played, with its row; it began when the session began, and ended when
/// the game was last seen before the sample.
pub proof fn law_end_is_when_last_seen(
    live: LiveView,
    game: Option<identity::IdentityView>,
    now: int,
    clock: int,
)
    ensures
        ({
            let after = live.applied(game, now, clock);
            let n = live.pending_ends.len() as int;
            &&& n <= after.pending_ends.len() <= n + 1
            &&& after.pending_ends.take(n) == live.pending_ends
            &&& after.pending_ends.len() > n ==> {
                let e = after.pending_ends[n];
                &&& live.identity == Some(e.identity)
                &&& e.db_session_id == live.db_session_id
                &&& live.started_at is Some ==> e.started_at == live.started_at->0
                &&& live.last_seen_at is Some ==> e.ended_at == live.last_seen_at->0
                &&& live.started_at is Some && live.last_seen_at is None ==> e.ended_at
                    == live.started_at->0
                &&& live.started_at is None && live.last_seen_at is Some ==> e.started_at
                    == live.last_seen_at->0
            }
        }),
{
    let after = live.applied(game, now, clock);
    let n = live.pending_ends.len() as int;
    assert(after.pending_ends.take(n) =~= live.pending_ends);
}

/// A game that has been missing for eight seconds or more is over, and so is any
/// game after more than thirty seconds without a sample: then nothing is being
/// played, unless the sample holds a game.
pub proof fn law_missing_game_is_over(live: LiveView, now: int, clock: int)
    requires
        live.identity is Some,
        live.last_seen_at is Some,
        time::since(now, live.last_seen_at->0) >= 8_000_000_000 || live.last_tick_at is Some
            && time::since(now, live.last_tick_at->0) > 30_000_000_000,
    ensures
        ({
            let after = live.applied(None, now, clock);
            &&& after.pending_ends.len() == live.pending_ends.len() + 1
            &&& after.identity is None
            &&& after.started_at is None
            &&& after.last_seen_at is None
            &&& after.db_session_id is None
            &&& after.last_tick_at == Some(now)
        }),
{
}

/// A game that has been missing for less than eight seconds, with samples no more
/// than thirty seconds apart, is not over.
pub proof fn law_short_gap_is_no_end(live: LiveView, now: int, clock: int)
    requires
        live.identity is Some,
        live.last_seen_at is Some,
        time::since(now, live.last_seen_at->0) < 8_000_000_000,
        live.last_tick_at is Some ==> time::since(now, live.last_tick_at->0) <= 30_000_000_000,
    ensures
        ({
            let after = live.applied(None, now, clock);
            &&& after.pending_ends == live.pending_ends
            &&& after.identity == live.identity
            &&& after.started_at == live.started_at
            &&& after.last_seen_at == live.last_seen_at
            &&& after.db_session_id == live.db_session_id
            &&& after.last_tick_at == Some(now)
        }),
{
}

/// After a sample with a game that game is being played, and was seen at the time
/// of the sample. It began then, without a row, unless it was being played before
/// and no more than thirty seconds have passed since the last sample: then it
/// keeps its beginning and its row, and nothing ends.
pub proof fn law_seen_game_is_played(
    live: LiveView,
    game: identity::IdentityView,
    now: int,
    clock: int,
)
    ensures
        ({
            let after = live.applied(Some(game), now, clock);
            let slept = live.last_tick_at is Some && time::since(now, live.last_tick_at->0)
                > 30_000_000_000;
            let goes_on = live.identity is Some && live.identity->0.id == game.id && !slept;
            &&& after.identity == Some(game)
            &&& after.last_seen_at == Some(now)
            &&& after.last_tick_at == Some(now)
            &&& goes_on ==> {
                &&& after.started_at == live.started_at
                &&& after.db_session_id == live.db_session_id
                &&& after.pending_ends == live.pending_ends
            }
            &&& !goes_on ==> {
                &&& after.started_at == Some(now)
                &&& after.db_session_id is None
                &&& after.pending_ends.len() == live.pending_ends.len() + (
                if live.identity is Some {
                    1int
                } else {
                    0int
                })
            }
        }),
{
}

/// While nothing is being played, samples without a game change nothing but the
/// time of the last sample.
pub proof fn law_nothing_played_nothing_ends(live: LiveView, now: int, clock: int)
    requires
        live.identity is None,
    ensures
        live.applied(None, now, clock) == (LiveView { last_tick_at: Some(now), ..live }),
{
}

/// A game that is missing for less than the time of grace goes on: the session
/// keeps its game, its start and its row.
pub proof fn law_flicker_goes_on(live: LiveView, now: int, clock: int)
    requires
        live.identity is Some,
        live.last_seen_at is Some,
        time::since(now, live.last_seen_at->0) < secs(MISS_GRACE),
        live.last_tick_at is Some ==> time::since(now, live.last_tick_at->0) <= secs(SLEEP_SPLIT),
    ensures
        live.applied(None, now, clock) == (LiveView { last_tick_at: Some(now), ..live }),
{
}

/// The same game, sampled in time, goes on: its start does not move.
pub proof fn law_same_game_goes_on(
    live: LiveView,
    game: identity::IdentityView,
    now: int,
    clock: int,
)
    requires
        live.identity is Some,
        live.identity->0.id == game.id,
        live.last_tick_at is Some ==> time::since(now, live.last_tick_at->0) <= secs(SLEEP_SPLIT),
    ensures
        ({
            let after = live.applied(Some(game), now, clock);
            &&& after.started_at == live.started_at
            &&& after.db_session_id == live.db_session_id
            &&& after.pending_ends == live.pending_ends
            &&& after.last_seen_at == Some(now)
        }),
{
}

/// After a long gap the session is split, even where the same game is still
/// there: the old session ended when the game was last seen, and a new one
/// begins now without a row.
pub proof fn law_sleep_splits(
    live: LiveView,
    game: identity::IdentityView,
    now: int,
    clock: int,
)
    requires
        live.identity is Some,
        live.last_tick_at is Some,
        time::since(now, live.last_tick_at->0) > secs(SLEEP_SPLIT),
    ensures
        ({
            let after = live.applied(Some(game), now, clock);
            &&& after.pending_ends == live.pending_ends.push(live.ending(clock))
            &&& after.identity == Some(game)
            &&& after.started_at == Some(now)
            &&& after.db_session_id is None
        }),
{
}

} // verus!
