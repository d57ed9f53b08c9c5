//! What holds of the signs of life, of the log files that are deleted, of times, and of
//! what the systems are called.

use vstd::prelude::*;

use crate::detect;
use crate::health;
use crate::health::LogFile;
use crate::host::HostOs;
use crate::identity;
use crate::identity::Confidence;
use crate::number;
use crate::order;
use crate::push;
use crate::runtime;
use crate::search;
use crate::time;

verus! {

// ---------------------------------------------------------------------------
// Signs of life
// ---------------------------------------------------------------------------

/// Detection counts as alive for less than three intervals after the last one, where an
/// interval is at least a second; without a detection it never does.
pub proof fn law_alive(last: int, poll_interval_secs: u64, now: int)
    ensures
        !health::alive(None, poll_interval_secs, now),
        poll_interval_secs >= 1 ==> (health::alive(Some(last), poll_interval_secs, now)
            <==> time::since(now, last) < 3_000_000_000 * poll_interval_secs),
        poll_interval_secs == 0 ==> (health::alive(Some(last), poll_interval_secs, now)
            <==> time::since(now, last) < 3_000_000_000),
{
}

/// A detection that was some whole seconds ago is told as that many seconds, and one that
/// is yet to come as none.
pub proof fn law_seconds_ago(at: int, secs: int)
    requires
        time::is_time(at),
        time::beyond(at) < 1_000_000_000,
    ensures
        secs >= 0 ==> health::secs_ago(at, time::plus(at, secs)) == secs,
        secs < 0 ==> health::secs_ago(at, time::plus(at, secs)) == 0,
{
    time::law_plus_and_since(at, secs);
    assert(secs >= 0 ==> (secs * 1_000_000_000) / 1_000_000_000 == secs);
}

/// The tooltip tells how long ago the last detection was, how the database fares, and
/// whether detection is stuck.
pub proof fn law_tooltip(last: Option<int>, db_ok: bool, poll_interval_secs: u64, now: int)
    ensures
        ({
            let t = health::tooltip(last, db_ok, poll_interval_secs, now);
            let poll = match last {
                Some(at) => "poll "@ + number::decimal(health::secs_ago(at, now)) + "s ago"@,
                None => "poll —"@,
            };
            let up = "qMonitor · "@ + poll + " · "@ + "DB ok"@;
            let down = "qMonitor · "@ + poll + " · "@ + "DB down"@;
            let lives = health::alive(last, poll_interval_secs, now);
            &&& db_ok && lives ==> t == up
            &&& !db_ok && lives ==> t == down
            &&& db_ok && !lives ==> t == up + " · loop stuck"@
            &&& !db_ok && !lives ==> t == down + " · loop stuck"@
        }),
{
}

// ---------------------------------------------------------------------------
// Log files
// ---------------------------------------------------------------------------

/// A file is deleted at once where nothing is to be kept, or where it was last written
/// before the cutoff; every other file is kept for the time being.
pub proof fn law_expired(
    files: Seq<LogFile>,
    keep_days: u64,
    max_bytes: u64,
    cutoff: i128,
    file: LogFile,
)
    requires
        files.contains(file),
    ensures
        health::expired(files, keep_days, max_bytes, cutoff).contains(file) <==> keep_days == 0
            || max_bytes == 0 || file.modified < cutoff,
        health::kept(files, keep_days, max_bytes, cutoff).contains(file) <==> keep_days > 0
            && max_bytes > 0 && file.modified >= cutoff,
{
    search::lemma_filter_has(
        files,
        |f: LogFile| health::deletes_all(keep_days, max_bytes) || f.modified < cutoff,
        file,
    );
    search::lemma_filter_has(
        files,
        |f: LogFile| !(health::deletes_all(keep_days, max_bytes) || f.modified < cutoff),
        file,
    );
}

/// Files in a list have together the bytes of each.
pub proof fn law_total(a: Seq<LogFile>, b: Seq<LogFile>, file: LogFile)
    ensures
        health::total_len(a + b) == health::total_len(a) + health::total_len(b),
        health::total_len(seq![file]) == file.len,
        health::total_len(Seq::empty()) == 0,
    decreases b.len(),
{
    reveal_with_fuel(health::total_len, 2);
    assert(seq![file].drop_last() == Seq::<LogFile>::empty());
    assert(seq![file].last() == file);
    if b.len() == 0 {
        assert(a + b == a);
    } else {
        law_total(a, b.drop_last(), file);
        assert((a + b).drop_last() == a + b.drop_last());
    }
}

/// The files that are kept for the time being are gone through in the order in which they
/// were written, all of them; their bytes together are counted from the start.
pub proof fn law_oldest_goes_first(
    files: Seq<LogFile>,
    keep_days: u64,
    max_bytes: u64,
    cutoff: i128,
    i: int,
    j: int,
)
    ensures
        ({
            let p = health::pruner_for(files, keep_days, max_bytes, cutoff);
            let kept = health::kept(files, keep_days, max_bytes, cutoff);
            &&& 0 <= i < j < p.queue.len() ==> p.queue[i].modified <= p.queue[j].modified
            &&& p.queue.len() == kept.len()
            &&& p.total == health::total_len(kept)
            &&& p.max_bytes == max_bytes
            &&& p.expired == health::expired(files, keep_days, max_bytes, cutoff)
        }),
{
    let kept = health::kept(files, keep_days, max_bytes, cutoff);
    let s = kept.map_values(|f: LogFile| health::dated(f));
    order::law_sorted(s);
    let sorted = order::sorted(s);
    lemma_dated(kept, i);
    lemma_dated(kept, j);
    if 0 <= i < j < sorted.len() {
        assert(order::Ranked::at_most(sorted[i], sorted[j]));
    }
}

/// A file that was sorted by its date still has it.
proof fn lemma_dated(files: Seq<LogFile>, i: int)
    ensures
        ({
            let s = files.map_values(|f: LogFile| health::dated(f));
            &&& order::sorted(s).len() == files.len()
            &&& 0 <= i < order::sorted(s).len() ==> order::sorted(s)[i].0
                == order::sorted(s)[i].1.modified
        }),
{
    let s = files.map_values(|f: LogFile| health::dated(f));
    order::law_sorted(s);
    order::lemma_sorted_items(s);
    if 0 <= i < order::sorted(s).len() {
        assert(s.contains(order::sorted(s)[i]));
        let k = choose|k: int| 0 <= k < s.len() && s[k] == order::sorted(s)[i];
        assert(s[k] == health::dated(files[k]));
    }
}

/// The next file to delete is the oldest that was not tried yet, as long as there are too
/// many bytes; its bytes go if it could be deleted, and in any case the next one is
/// tried then.
pub proof fn law_next_victim(p: health::PrunerView, removed: bool)
    ensures
        health::next_victim(p) is Some <==> p.total > p.max_bytes && p.queue.len() > 0,
        health::next_victim(p) is Some ==> health::next_victim(p) == Some(p.queue[0]),
        p.queue.len() > 0 ==> {
            let after = health::after_victim(p, removed);
            &&& after.queue == p.queue.skip(1)
            &&& after.max_bytes == p.max_bytes
            &&& after.expired == p.expired
            &&& !removed ==> after.total == p.total
            &&& removed && p.total >= p.queue[0].len ==> after.total == p.total - p.queue[0].len
            &&& removed && p.total < p.queue[0].len ==> after.total == 0
        },
{
}

// ---------------------------------------------------------------------------
// What counts
// ---------------------------------------------------------------------------

/// Only a high or a medium confidence is tracked without asking.
pub proof fn law_tracked_without_asking(c: Confidence)
    ensures
        c.auto() <==> c != Confidence::Low && c != Confidence::Absent,
{
}

/// The game that counts is one that was found, and there is one where any was found.
pub proof fn law_game_was_found(
    found: Seq<identity::IdentityView>,
    foreground: Option<u32>,
    procs: Seq<identity::ProcessView>,
)
    ensures
        runtime::primary_game(found, foreground, procs) is Some <==> found.len() > 0,
        found.len() > 0 ==> {
            let i = detect::primary_index(found, foreground, procs);
            &&& i is Some
            &&& 0 <= i->0 < found.len()
            &&& runtime::primary_game(found, foreground, procs) == Some(found[i->0])
        },
{
    detect::lemma_primary(found, foreground, procs);
}

/// A reply tells success where its status is in the two hundreds.
pub proof fn law_success(status: u16)
    ensures
        push::is_success(status) <==> status as int / 100 == 2,
{
}

/// What the two catalogs call the systems; only the names of Linux agree.
pub proof fn law_labels(host: HostOs)
    ensures
        host == HostOs::Windows ==> host.catalog_label() == "windows"@ && host.discord_label()
            == "win32"@,
        host == HostOs::Linux ==> host.catalog_label() == "linux"@ && host.discord_label()
            == "linux"@,
        host == HostOs::MacOs ==> host.catalog_label() == "other"@ && host.discord_label()
            == "darwin"@,
        host == HostOs::Other ==> host.catalog_label() == "other"@ && host.discord_label()
            == "other"@,
{
}

// ---------------------------------------------------------------------------
// Times
// ---------------------------------------------------------------------------

/// Nanoseconds from 1970 make a moment that tells them again, in the second that they
/// fall in; later ones make later moments.
pub proof fn law_moment(nanos: int, later: int)
    ensures
        time::unix_nanos(time::moment(nanos)) == nanos,
        time::second_of(time::moment(nanos)) == nanos / 1_000_000_000,
        time::beyond(time::moment(nanos)) == nanos % 1_000_000_000,
        nanos < later ==> time::moment(nanos) < time::moment(later),
{
    let a = nanos / 1_000_000_000;
    let b = nanos % 1_000_000_000;
    assert(time::moment(nanos) == a * 2_000_000_000 + b);
    assert((a * 2_000_000_000 + b) / 2_000_000_000 == a);
    assert((a * 2_000_000_000 + b) % 2_000_000_000 == b);
}

/// Outside of leap seconds the time between two moments is the difference of their
/// nanoseconds.
pub proof fn law_since(a: int, b: int)
    requires
        time::beyond(a) < 1_000_000_000,
        time::beyond(b) < 1_000_000_000,
    ensures
        time::since(a, b) == time::unix_nanos(a) - time::unix_nanos(b),
        time::since(a, b) == -time::since(b, a),
{
}

/// Seconds are whole where they are full.
pub proof fn law_whole_seconds(secs: int, rest: int)
    requires
        0 <= rest < 1_000_000_000,
    ensures
        time::whole_seconds(secs * 1_000_000_000 + rest) == secs,
{
    assert((secs * 1_000_000_000 + rest) / 1_000_000_000 == secs);
}

/// The time from one moment to another is the same as back, in leap seconds too; and a
/// leap second counts as one where it stands earlier in its day than the other moment.
pub proof fn law_since_both_ways(a: int, b: int)
    ensures
        time::since(a, b) == -time::since(b, a),
        time::second_of(a) % 86_400 > time::second_of(b) % 86_400 && time::beyond(b)
            >= 1_000_000_000 ==> time::since(a, b) == time::unix_nanos(a) - time::unix_nanos(b)
            + 1_000_000_000,
        time::second_of(a) % 86_400 == time::second_of(b) % 86_400 ==> time::since(a, b)
            == time::unix_nanos(a) - time::unix_nanos(b),
{
}

/// A moment in a leap second, some seconds on, is in none, and stands as far behind the
/// second that follows as it stood in the leap second.
pub proof fn law_plus_leap(t: int, secs: int)
    requires
        time::beyond(t) >= 1_000_000_000,
    ensures
        time::plus(t, 0) == t,
        secs > 0 ==> time::second_of(time::plus(t, secs)) == time::second_of(t) + secs,
        secs > 0 ==> time::beyond(time::plus(t, secs)) == time::beyond(t) - 1_000_000_000,
        secs < 0 ==> time::second_of(time::plus(t, secs)) == time::second_of(t) + secs + 1,
        secs < 0 ==> time::beyond(time::plus(t, secs)) == time::beyond(t) - 1_000_000_000,
{
    let s = time::second_of(t);
    let b = time::beyond(t);
    assert(t == s * 2_000_000_000 + b);
    if secs > 0 {
        assert(time::plus(t, secs) == (s + secs) * 2_000_000_000 + (b - 1_000_000_000));
    } else if secs < 0 {
        assert(time::plus(t, secs) == (s + secs + 1) * 2_000_000_000 + (b - 1_000_000_000));
    }
}

} // verus!
