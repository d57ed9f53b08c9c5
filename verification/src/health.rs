//! Signs of life, the tooltip in the tray, and which log files are deleted.

use vstd::prelude::*;

use crate::number;
use crate::number::decimal_of;
use crate::order;
use crate::order::sort;
use crate::text;
use crate::text::{copy_opt, has_prefix};
use crate::time;
use crate::time::Timestamp;

verus! {

/// Log files that are older, in days, are deleted while logging is on.
pub const LOG_KEEP_DAYS: u64 = 3;

/// How many bytes the log files may have together.
pub const LOG_MAX_BYTES: u64 = 5_242_880;

/// How often log files are looked through, in seconds.
pub const LOG_PRUNE_EVERY: u64 = 1_800;

/// When the parts of the program last did their work, and what went wrong.
#[derive(Debug)]
pub struct RuntimeHealth {
    pub last_detect_at: Option<Timestamp>,
    pub last_persist_at: Option<Timestamp>,
    pub last_push_at: Option<Timestamp>,
    pub db_ok: bool,
    pub db_generation: u64,
    pub db_reconnects: u64,
    pub detect_timeouts: u64,
    pub last_error: Option<String>,
}

impl Clone for RuntimeHealth {
    fn clone(&self) -> (r: Self)
        ensures
            r == *self,
    {
        RuntimeHealth {
            last_detect_at: self.last_detect_at,
            last_persist_at: self.last_persist_at,
            last_push_at: self.last_push_at,
            db_ok: self.db_ok,
            db_generation: self.db_generation,
            db_reconnects: self.db_reconnects,
            detect_timeouts: self.detect_timeouts,
            last_error: copy_opt(&self.last_error),
        }
    }
}

impl Default for RuntimeHealth {
    fn default() -> (r: Self)
        ensures
            r == (RuntimeHealth {
                last_detect_at: None,
                last_persist_at: None,
                last_push_at: None,
                db_ok: false,
                db_generation: 0,
                db_reconnects: 0,
                detect_timeouts: 0,
                last_error: None,
            }),
    {
        RuntimeHealth {
            last_detect_at: None,
            last_persist_at: None,
            last_push_at: None,
            db_ok: false,
            db_generation: 0,
            db_reconnects: 0,
            detect_timeouts: 0,
            last_error: None,
        }
    }
}

/// The longest interval that can be told three times over, in seconds.
pub const LONGEST_POLL: u64 = 3_074_457_345_618_258;

/// An interval of at least one second.
pub open spec fn at_least_one(secs: u64) -> int {
    if secs >= 1 {
        secs as int
    } else {
        1
    }
}

/// The last detection was less than three intervals before `now`.
pub open spec fn alive(last: Option<int>, poll_interval_secs: u64, now: int) -> bool {
    last is Some && time::since(now, last->0) < at_least_one(poll_interval_secs) * 3 * time::NANOS
}

/// How many seconds ago `at` was; none for a time to come.
pub open spec fn secs_ago(at: int, now: int) -> nat {
    if time::since(now, at) < 0 {
        0
    } else {
        time::whole_seconds(time::since(now, at)) as nat
    }
}

/// The tooltip in the tray.
pub open spec fn tooltip(
    last: Option<int>,
    db_ok: bool,
    poll_interval_secs: u64,
    now: int,
) -> Seq<char> {
    let poll = match last {
        Some(at) => "poll "@ + number::decimal(secs_ago(at, now)) + "s ago"@,
        None => "poll —"@,
    };
    let db = if db_ok {
        "DB ok"@
    } else {
        "DB down"@
    };
    let stuck = if alive(last, poll_interval_secs, now) {
        Seq::empty()
    } else {
        " · loop stuck"@
    };
    "qMonitor · "@ + poll + " · "@ + db + stuck
}

impl RuntimeHealth {
    /// When the last detection was.
    pub open spec fn detected(&self) -> Option<int> {
        time::opt_time(self.last_detect_at)
    }

    /// Whether detection still runs, at `now`.
    pub fn loop_alive_at(&self, poll_interval_secs: u64, now: Timestamp) -> (r: bool)
        requires
            poll_interval_secs <= LONGEST_POLL,
        ensures
            r == alive(self.detected(), poll_interval_secs, now@),
    {
        match self.last_detect_at {
            Some(at) => {
                let secs: u64 = if poll_interval_secs >= 1 {
                    poll_interval_secs
                } else {
                    1
                };
                now.nanos_since(&at) < secs as i128 * 3 * time::NANOS
            },
            None => false,
        }
    }

    /// Whether detection still runs, by the clock.
    pub fn loop_alive(&self, poll_interval_secs: u64) -> (r: bool)
        requires
            poll_interval_secs <= LONGEST_POLL,
        ensures
            self.last_detect_at is None ==> !r,
            exists|now: int|
                0 <= now && time::is_time(now) && r == #[trigger] alive(
                    self.detected(),
                    poll_interval_secs,
                    now,
                ),
    {
        let now = Timestamp::now();
        self.loop_alive_at(poll_interval_secs, now)
    }

    /// The tooltip in the tray, at `now`.
    pub fn tray_tooltip_at(&self, poll_interval_secs: u64, now: Timestamp) -> (r: String)
        requires
            poll_interval_secs <= LONGEST_POLL,
        ensures
            r@ == tooltip(self.detected(), self.db_ok, poll_interval_secs, now@),
    {
        let mut t = "qMonitor · ".to_owned();
        match self.last_detect_at {
            Some(at) => {
                let passed: i128 = now.nanos_since(&at);
                let secs: u64 = if passed < 0 {
                    0
                } else {
                    (passed / time::NANOS) as u64
                };
                let d = decimal_of(secs);
                let ghost before = t@;
                t.append("poll ");
                t.append(d.as_str());
                t.append("s ago");
                assert(t@ == before + ("poll "@ + d@ + "s ago"@));
            },
            None => {
                t.append("poll —");
            },
        }
        t.append(" · ");
        if self.db_ok {
            t.append("DB ok");
        } else {
            t.append("DB down");
        }
        if !self.loop_alive_at(poll_interval_secs, now) {
            t.append(" · loop stuck");
        }
        assert(t@ == tooltip(self.detected(), self.db_ok, poll_interval_secs, now@));
        t
    }

    /// The tooltip in the tray, by the clock.
    pub fn tray_tooltip(&self, poll_interval_secs: u64) -> (r: String)
        requires
            poll_interval_secs <= LONGEST_POLL,
        ensures
            exists|now: int|
                0 <= now && time::is_time(now) && r@ == #[trigger] tooltip(
                    self.detected(),
                    self.db_ok,
                    poll_interval_secs,
                    now,
                ),
    {
        let now = Timestamp::now();
        self.tray_tooltip_at(poll_interval_secs, now)
    }
}

// ---------------------------------------------------------------------------
// Log files
// ---------------------------------------------------------------------------

/// How many days log files are kept: none while logging to files is off.
pub fn prune_keep_days(file_enabled: bool) -> (r: u64)
    ensures
        r == (if file_enabled {
            LOG_KEEP_DAYS
        } else {
            0
        }),
        file_enabled ==> r == 3,
{
    if file_enabled {
        LOG_KEEP_DAYS
    } else {
        0
    }
}

/// How many bytes of log files are kept: none while logging to files is off.
pub fn prune_max_bytes(file_enabled: bool) -> (r: u64)
    ensures
        r == (if file_enabled {
            LOG_MAX_BYTES
        } else {
            0
        }),
        file_enabled ==> r == 5_242_880,
{
    if file_enabled {
        LOG_MAX_BYTES
    } else {
        0
    }
}

/// Whether a file of this name is one of the program's log files.
pub fn is_qmonitor_log(name: &str) -> (r: bool)
    ensures
        r == text::starts_with(name@, "qmonitor.log"@),
{
    has_prefix(name, "qmonitor.log")
}

/// How long a log file is kept, in seconds.
pub fn keep_secs(keep_days: u64) -> (r: u64)
    ensures
        r == (if keep_days * 86_400 <= u64::MAX {
            keep_days * 86_400
        } else {
            u64::MAX as int
        }),
{
    if keep_days <= u64::MAX / 86_400 {
        keep_days * 86_400
    } else {
        u64::MAX
    }
}

/// A log file: its path, when it was last written, in nanoseconds from the
/// beginning of 1970, and its length.
#[derive(Debug)]
pub struct LogFile {
    pub path: String,
    pub modified: i128,
    pub len: u64,
}

impl Clone for LogFile {
    fn clone(&self) -> (r: Self)
        ensures
            r == *self,
    {
        LogFile { path: self.path.clone(), modified: self.modified, len: self.len }
    }
}

/// The bytes of some log files together.
pub open spec fn total_len(files: Seq<LogFile>) -> nat
    decreases files.len(),
{
    if files.len() == 0 {
        0
    } else {
        total_len(files.drop_last()) + files.last().len as nat
    }
}

/// All log files are deleted.
pub open spec fn deletes_all(keep_days: u64, max_bytes: u64) -> bool {
    keep_days == 0 || max_bytes == 0
}

/// The files that are deleted at once: all, or those last written before
/// `cutoff`.
pub open spec fn expired(
    files: Seq<LogFile>,
    keep_days: u64,
    max_bytes: u64,
    cutoff: i128,
) -> Seq<LogFile> {
    files.filter(|f: LogFile| deletes_all(keep_days, max_bytes) || f.modified < cutoff)
}

/// The files that are not deleted at once.
pub open spec fn kept(
    files: Seq<LogFile>,
    keep_days: u64,
    max_bytes: u64,
    cutoff: i128,
) -> Seq<LogFile> {
    files.filter(|f: LogFile| !(deletes_all(keep_days, max_bytes) || f.modified < cutoff))
}

/// A file with when it was last written in front.
pub open spec fn dated(f: LogFile) -> (i128, LogFile) {
    (f.modified, f)
}

/// The files without when they were last written.
pub open spec fn undated(s: Seq<(i128, LogFile)>) -> Seq<LogFile> {
    s.map_values(|p: (i128, LogFile)| p.1)
}

/// The files, those that were written first in front.
pub open spec fn oldest_first(files: Seq<LogFile>) -> Seq<LogFile> {
    undated(order::sorted(files.map_values(|f: LogFile| dated(f))))
}

/// Which log files are deleted: some at once, then the oldest of the others, one
/// after the other, while they are too many bytes together.
pub struct LogPruner {
    expired: Vec<LogFile>,
    rest: Vec<LogFile>,
    next: usize,
    total: u64,
    max_bytes: u64,
}

/// The mathematical value of a `LogPruner`.
#[verifier::ext_equal]
pub struct PrunerView {
    pub expired: Seq<LogFile>,
    /// The files that may still be deleted, oldest first.
    pub queue: Seq<LogFile>,
    /// The bytes that are still there.
    pub total: int,
    pub max_bytes: int,
}

impl View for LogPruner {
    type V = PrunerView;

    closed spec fn view(&self) -> PrunerView {
        PrunerView {
            expired: self.expired@,
            queue: self.rest@.skip(self.next as int),
            total: self.total as int,
            max_bytes: self.max_bytes as int,
        }
    }
}

/// What a pruner sets out with.
pub open spec fn pruner_for(
    files: Seq<LogFile>,
    keep_days: u64,
    max_bytes: u64,
    cutoff: i128,
) -> PrunerView {
    PrunerView {
        expired: expired(files, keep_days, max_bytes, cutoff),
        queue: oldest_first(kept(files, keep_days, max_bytes, cutoff)),
        total: total_len(kept(files, keep_days, max_bytes, cutoff)) as int,
        max_bytes: max_bytes as int,
    }
}

/// The next file to delete.
pub open spec fn next_victim(p: PrunerView) -> Option<LogFile> {
    if p.total > p.max_bytes && p.queue.len() > 0 {
        Some(p.queue[0])
    } else {
        None
    }
}

/// After the next file was tried: it leaves the queue, and its bytes go if it
/// could be deleted.
pub open spec fn after_victim(p: PrunerView, removed: bool) -> PrunerView {
    let left = p.total - p.queue[0].len;
    PrunerView {
        queue: p.queue.skip(1),
        total: if !removed {
            p.total
        } else if left < 0 {
            0
        } else {
            left
        },
        ..p
    }
}

impl LogPruner {
    #[verifier::type_invariant]
    spec fn wf(self) -> bool {
        self.next <= self.rest@.len()
    }

    /// Works out what to delete of `files`.
    pub fn new(files: &Vec<LogFile>, keep_days: u64, max_bytes: u64, cutoff: i128) -> (r: Self)
        requires
            total_len(kept(files@, keep_days, max_bytes, cutoff)) <= u64::MAX,
        ensures
            r@ == pruner_for(files@, keep_days, max_bytes, cutoff),
    {
        let all = keep_days == 0 || max_bytes == 0;
        let ghost f = |f: LogFile| deletes_all(keep_days, max_bytes) || f.modified < cutoff;
        let ghost g = |f: LogFile| !(deletes_all(keep_days, max_bytes) || f.modified < cutoff);
        let ghost pair = |f: LogFile| dated(f);
        let mut expired: Vec<LogFile> = Vec::new();
        let mut pairs: Vec<(i128, LogFile)> = Vec::new();
        let mut total: u64 = 0;
        let mut i: usize = 0;
        proof {
            reveal(Seq::filter);
        }
        assert(expired@ == files@.take(0).filter(f));
        assert(pairs@ == files@.take(0).filter(g).map_values(pair));
        while i < files.len()
            invariant
                i <= files@.len(),
                total_len(files@.filter(g)) <= u64::MAX,
                all == deletes_all(keep_days, max_bytes),
                f == (|f: LogFile| deletes_all(keep_days, max_bytes) || f.modified < cutoff),
                g == (|f: LogFile| !(deletes_all(keep_days, max_bytes) || f.modified < cutoff)),
                pair == (|f: LogFile| dated(f)),
                expired@ == files@.take(i as int).filter(f),
                pairs@ == files@.take(i as int).filter(g).map_values(pair),
                total == total_len(files@.take(i as int).filter(g)),
            decreases files.len() - i,
        {
            proof {
                reveal(Seq::filter);
                assert(files@.take(i + 1).drop_last() == files@.take(i as int));
                lemma_total_grows(files@, g, i + 1);
            }
            if all || files[i].modified < cutoff {
                expired.push(files[i].clone());
            } else {
                let ghost was = files@.take(i as int).filter(g);
                let ghost now = files@.take(i + 1).filter(g);
                assert(now == was.push(files@[i as int]));
                assert(now.drop_last() == was);
                pairs.push((files[i].modified, files[i].clone()));
                assert(pairs@ == now.map_values(pair));
                total = total + files[i].len;
            }
            i = i + 1;
        }
        assert(files@.take(i as int) == files@);
        let sorted = sort(pairs);
        let ghost out = sorted@.map_values(|p: (i128, LogFile)| p.1);
        let mut rest: Vec<LogFile> = Vec::new();
        let mut k: usize = 0;
        while k < sorted.len()
            invariant
                k <= sorted@.len(),
                out == sorted@.map_values(|p: (i128, LogFile)| p.1),
                rest@ == out.take(k as int),
            decreases sorted.len() - k,
        {
            rest.push(sorted[k].1.clone());
            assert(rest@ == out.take(k + 1));
            k = k + 1;
        }
        assert(out.take(k as int) == out);
        assert(rest@.skip(0) == rest@);
        LogPruner { expired, rest, next: 0, total, max_bytes }
    }

    /// The files to delete at once.
    pub fn expired_files(&self) -> (r: &Vec<LogFile>)
        ensures
            r@ == self@.expired,
    {
        &self.expired
    }

    /// The next file to delete.
    pub fn next_file(&self) -> (r: Option<LogFile>)
        ensures
            r == next_victim(self@),
    {
        proof {
            use_type_invariant(self);
        }
        if self.total > self.max_bytes && self.next < self.rest.len() {
            Some(self.rest[self.next].clone())
        } else {
            None
        }
    }

    /// Notes whether the next file could be deleted.
    pub fn note_removed(&mut self, removed: bool)
        requires
            next_victim(old(self)@) is Some,
        ensures
            final(self)@ == after_victim(old(self)@, removed),
    {
        proof {
            use_type_invariant(&*self);
        }
        let n: usize = self.rest.len();
        let at: usize = self.next;
        assert(at < n);
        let len: u64 = self.rest[at].len;
        if removed {
            self.total = self.total.saturating_sub(len);
        }
        assert(self.rest@.skip(at as int).skip(1) == self.rest@.skip(at + 1));
        self.next = at + 1;
    }
}

proof fn lemma_total_grows(files: Seq<LogFile>, f: spec_fn(LogFile) -> bool, n: int)
    requires
        0 <= n <= files.len(),
    ensures
        total_len(files.take(n).filter(f)) <= total_len(files.filter(f)),
    decreases files.len() - n,
{
    if n < files.len() {
        reveal(Seq::filter);
        lemma_total_grows(files, f, n + 1);
        let u = files.take(n).filter(f);
        assert(files.take(n + 1).drop_last() == files.take(n));
        if f(files[n]) {
            assert(u.push(files[n]).drop_last() == u);
        }
    } else {
        assert(files.take(n) == files);
    }
}

/// The first file and the others make up the total.
proof fn lemma_total_first(files: Seq<LogFile>)
    requires
        files.len() > 0,
    ensures
        total_len(files) == files[0].len + total_len(files.skip(1)),
    decreases files.len(),
{
    if files.len() > 1 {
        lemma_total_first(files.drop_last());
        assert(files.skip(1).drop_last() == files.drop_last().skip(1));
    } else {
        assert(files.drop_last() == Seq::<LogFile>::empty());
        assert(files.skip(1) == Seq::<LogFile>::empty());
    }
}

proof fn lemma_total_put(s: Seq<(i128, LogFile)>, x: (i128, LogFile))
    ensures
        total_len(undated(order::put_in(s, x))) == total_len(undated(s)) + x.1.len,
    decreases s.len(),
{
    if s.len() == 0 || order::Ranked::at_most(s.last(), x) {
        assert(undated(s.push(x)).drop_last() == undated(s));
    } else {
        let q = order::put_in(s.drop_last(), x);
        lemma_total_put(s.drop_last(), x);
        assert(undated(q.push(s.last())).drop_last() == undated(q));
        assert(undated(s).drop_last() == undated(s.drop_last()));
    }
}

/// Files in another order have as many bytes.
proof fn lemma_total_sorted(files: Seq<LogFile>)
    ensures
        total_len(oldest_first(files)) == total_len(files),
    decreases files.len(),
{
    let s = files.map_values(|f: LogFile| dated(f));
    if files.len() == 0 {
        assert(undated(order::sorted(s)) == files);
    } else {
        let t = files.drop_last();
        lemma_total_sorted(t);
        assert(s.drop_last() == t.map_values(|f: LogFile| dated(f)));
        lemma_total_put(order::sorted(s.drop_last()), s.last());
    }
}

/// What is left once every file that is one too many was deleted.
pub open spec fn pruned(p: PrunerView) -> PrunerView
    decreases p.queue.len(),
{
    if next_victim(p) is Some {
        pruned(after_victim(p, true))
    } else {
        p
    }
}

/// The last of the files, from the `k`-th on, are left: they are few enough bytes,
/// and one file more would be too many.
pub open spec fn left_from(p: PrunerView, k: int, left: Seq<LogFile>) -> bool {
    &&& 0 <= k <= p.queue.len()
    &&& left == p.queue.skip(k)
    &&& total_len(left) <= p.max_bytes
    &&& k > 0 ==> total_len(p.queue.skip(k - 1)) > p.max_bytes
}

proof fn lemma_pruned(p: PrunerView, k: int)
    requires
        0 <= k <= p.queue.len(),
        0 <= p.max_bytes,
        k > 0 ==> total_len(p.queue.skip(k - 1)) > p.max_bytes,
    ensures
        exists|n: int| #[trigger]
            left_from(
                p,
                n,
                pruned(
                    PrunerView {
                        queue: p.queue.skip(k),
                        total: total_len(p.queue.skip(k)) as int,
                        ..p
                    },
                ).queue,
            ),
    decreases p.queue.len() - k,
{
    let rest = p.queue.skip(k);
    let now = PrunerView { queue: rest, total: total_len(rest) as int, ..p };
    if next_victim(now) is Some {
        lemma_total_first(rest);
        assert(rest.skip(1) == p.queue.skip(k + 1));
        lemma_pruned(p, k + 1);
        let next = PrunerView {
            queue: p.queue.skip(k + 1),
            total: total_len(p.queue.skip(k + 1)) as int,
            ..p
        };
        assert(after_victim(now, true) == next);
        let n = choose|n: int| left_from(p, n, pruned(next).queue);
        assert(left_from(p, n, pruned(now).queue));
    } else {
        assert(left_from(p, k, pruned(now).queue));
    }
}

/// Where every file can be deleted that is to be, what is left of the files that
/// are not too old are those that were written last: they fit in the bytes that
/// are allowed, and one more would not.
pub proof fn law_pruned_fits(
    files: Seq<LogFile>,
    keep_days: u64,
    max_bytes: u64,
    cutoff: i128,
)
    ensures
        exists|k: int| #[trigger]
            left_from(
                pruner_for(files, keep_days, max_bytes, cutoff),
                k,
                pruned(pruner_for(files, keep_days, max_bytes, cutoff)).queue,
            ),
{
    let p = pruner_for(files, keep_days, max_bytes, cutoff);
    lemma_total_sorted(kept(files, keep_days, max_bytes, cutoff));
    assert(p.queue.skip(0) == p.queue);
    lemma_pruned(p, 0);
}

/// A file that is not one of the log files is never deleted: what is deleted
/// comes from the files that were looked through.
pub proof fn law_expired_are_files(
    files: Seq<LogFile>,
    keep_days: u64,
    max_bytes: u64,
    cutoff: i128,
    k: int,
)
    requires
        0 <= k < expired(files, keep_days, max_bytes, cutoff).len(),
    ensures
        files.contains(expired(files, keep_days, max_bytes, cutoff)[k]),
{
    let f = |f: LogFile| deletes_all(keep_days, max_bytes) || f.modified < cutoff;
    assert(files.filter(f).contains(files.filter(f)[k]));
    files.lemma_filter_contains_rev(f, files.filter(f)[k]);
}

/// Where nothing is to be kept, all files are deleted at once.
pub proof fn law_zero_deletes_all(
    files: Seq<LogFile>,
    keep_days: u64,
    max_bytes: u64,
    cutoff: i128,
)
    requires
        deletes_all(keep_days, max_bytes),
    ensures
        expired(files, keep_days, max_bytes, cutoff) == files,
    decreases files.len(),
{
    reveal(Seq::filter);
    let f = |f: LogFile| deletes_all(keep_days, max_bytes) || f.modified < cutoff;
    if files.len() > 0 {
        law_zero_deletes_all(files.drop_last(), keep_days, max_bytes, cutoff);
        assert(files.drop_last().filter(f) == files.drop_last());
        assert(files.drop_last().push(files.last()) == files);
    }
}

} // verus!
