//! Points in time, to the nanosecond, in UTC.

use vstd::prelude::*;

use crate::order;

verus! {

/// The first second that can be told, counted from the beginning of 1970.
pub const FIRST_SECOND: i64 = -8_334_601_228_800;

/// The last second that can be told.
pub const LAST_SECOND: i64 = 8_210_266_876_799;

/// How many nanoseconds a second has.
pub const NANOS: i128 = 1_000_000_000;

/// The first second of the year 0.
pub const YEAR_0: i64 = -62_167_219_200;

/// The last second of the year 9999.
pub const YEAR_9999: i64 = 253_402_300_799;

/// How many steps a second is given in the count of moments: a nanosecond is a
/// step, and there is room for a leap second behind the last second of a minute.
pub const STEPS: i128 = 2_000_000_000;

/// The second of a moment, counted from the beginning of 1970.
pub open spec fn second_of(t: int) -> int {
    t / (STEPS as int)
}

/// The nanoseconds of a moment beyond its second: a thousand million or more in a
/// leap second.
pub open spec fn beyond(t: int) -> int {
    t % (STEPS as int)
}

/// The nanoseconds may stand beyond the second: those of a leap second only behind
/// the last second of a minute.
pub open spec fn may_stand(secs: int, nanos: int) -> bool {
    0 <= nanos < NANOS || NANOS <= nanos < STEPS && secs % 60 == 59
}

/// The moment is a time that can be told.
pub open spec fn is_time(t: int) -> bool {
    FIRST_SECOND <= second_of(t) <= LAST_SECOND && may_stand(second_of(t), beyond(t))
}

/// The moment that is this many nanoseconds from the beginning of 1970, where no
/// leap second counts.
pub open spec fn moment(nanos: int) -> int {
    nanos / (NANOS as int) * STEPS + nanos % (NANOS as int)
}

/// The nanoseconds of a moment from the beginning of 1970, where no leap second
/// before it counts.
pub open spec fn unix_nanos(t: int) -> int {
    second_of(t) * NANOS + beyond(t)
}

/// The second of the day.
pub open spec fn day_second(t: int) -> int {
    second_of(t) % 86_400
}

/// The nanoseconds from the moment `b` to the moment `a`. Of leap seconds, that of
/// the moment that stands earlier in its day counts as one more.
pub open spec fn since(a: int, b: int) -> int {
    let plain = unix_nanos(a) - unix_nanos(b);
    if day_second(a) > day_second(b) && beyond(b) >= NANOS {
        plain + NANOS
    } else if day_second(a) < day_second(b) && beyond(a) >= NANOS {
        plain - NANOS
    } else {
        plain
    }
}

/// The moment this many seconds later. It is in no leap second, unless it is the
/// same.
pub open spec fn plus(t: int, secs: int) -> int {
    if secs == 0 || beyond(t) < NANOS {
        t + secs * STEPS
    } else if secs > 0 {
        t + secs * STEPS - NANOS
    } else {
        t + (secs + 1) * STEPS - NANOS
    }
}

/// A point in time.
#[derive(Debug, Clone, Copy, PartialEq, Eq, Structural)]
pub struct Timestamp {
    at: i128,
}

impl View for Timestamp {
    type V = int;

    /// The moment. Later ones are greater.
    closed spec fn view(&self) -> int {
        self.at as int
    }
}

/// The value of an optional time.
pub open spec fn opt_time(t: Option<Timestamp>) -> Option<int> {
    match t {
        Some(t) => Some(t@),
        None => None,
    }
}

/// What `text` says as a date and time in the form of RFC 3339: the seconds from
/// the beginning of 1970 and the nanoseconds beyond them (over a thousand
/// million in a leap second); or why it says none.
pub uninterp spec fn rfc3339_reading(text: Seq<char>) -> Result<(i64, u32), Seq<char>>;

/// A point in time in the form of RFC 3339.
pub uninterp spec fn rfc3339_writing(secs: i64, nanos: u32) -> Option<Seq<char>>;

/// `chrono::DateTime::parse_from_rfc3339`: what it reads, or the text of its
/// error, is a function of the text. A year has four digits and an offset is
/// less than a day, which bounds what it reads, and an offset is of whole minutes,
/// so that a leap second ends a minute in UTC too.
#[verifier::external_body]
fn read_rfc3339(s: &str) -> (r: Result<(i64, u32), String>)
    ensures
        match r {
            Ok(t) => {
                &&& rfc3339_reading(s@) == Ok::<(i64, u32), Seq<char>>(t)
                &&& YEAR_0 - 86_400 <= t.0 <= YEAR_9999 + 86_400
                &&& may_stand(t.0 as int, t.1 as int)
            },
            Err(e) => rfc3339_reading(s@) == Err::<(i64, u32), Seq<char>>(e@),
        },
{
    match chrono::DateTime::parse_from_rfc3339(s) {
        Ok(d) => Ok((d.timestamp(), d.timestamp_subsec_nanos())),
        Err(e) => Err(e.to_string()),
    }
}

/// `text` says this time.
pub open spec fn reads_as(text: Seq<char>, secs: i64, nanos: u32) -> bool {
    rfc3339_reading(text) == Ok::<(i64, u32), Seq<char>>((secs, nanos))
}

/// Among the texts of the times of the years 0 to 9999, `text` stands as this time
/// does among the times.
pub open spec fn orders_like(text: Seq<char>, secs: i64, nanos: u32) -> bool {
    forall|s: i64, n: u32|
        YEAR_0 <= s <= YEAR_9999 && may_stand(s as int, n as int) ==> {
            let other = (#[trigger] rfc3339_writing(s, n))->0;
            let not_after = s < secs || s == secs && n <= nanos;
            let not_before = secs < s || s == secs && nanos <= n;
            &&& order::text_at_most(other, text) == not_after
            &&& order::text_at_most(text, other) == not_before
        }
}

/// `chrono::DateTime::to_rfc3339`, of the time that
/// `chrono::DateTime::from_timestamp` makes: there is one for every second in
/// range, and its text is a function of the time. In the years 0 to 9999 the
/// text reads back as the time it was written from, and among the texts of these
/// years it stands as the time does among the times: all parts have a fixed
/// number of digits but the fraction, which is left out where it is none, and the
/// plus sign behind it stands before the point and before all digits.
#[verifier::external_body]
fn write_rfc3339(secs: i64, nanos: u32) -> (r: Option<String>)
    requires
        FIRST_SECOND <= secs <= LAST_SECOND,
        may_stand(secs as int, nanos as int),
    ensures
        r is Some,
        rfc3339_writing(secs, nanos) == Some(r->0@),
        YEAR_0 <= secs <= YEAR_9999 ==> reads_as(r->0@, secs, nanos),
        YEAR_0 <= secs <= YEAR_9999 ==> orders_like(r->0@, secs, nanos),
{
    let d = chrono::DateTime::<chrono::Utc>::from_timestamp(secs, nanos)?;
    Some(d.to_rfc3339())
}

/// `chrono::Utc::now`: a time from 1970 on that can be told. Nothing else holds
/// of every call.
#[verifier::external_body]
fn clock() -> (r: (i64, u32))
    ensures
        0 <= r.0 <= LAST_SECOND,
        r.1 < 1_000_000_000,
{
    let now = chrono::Utc::now();
    (now.timestamp(), now.timestamp_subsec_nanos())
}

/// The whole seconds of a number of nanoseconds.
pub open spec fn whole_seconds(nanos: int) -> int {
    nanos / (NANOS as int)
}

/// The text of a time.
pub open spec fn time_text(t: int) -> Seq<char> {
    rfc3339_writing(second_of(t) as i64, beyond(t) as u32)->0
}

/// The time that a text tells.
pub open spec fn text_time(s: Seq<char>) -> Result<int, Seq<char>> {
    match rfc3339_reading(s) {
        Ok((secs, nanos)) => Ok(secs * STEPS + nanos),
        Err(e) => Err(e),
    }
}

/// A time of the years 0 to 9999.
pub open spec fn four_digit_year(t: int) -> bool {
    is_time(t) && YEAR_0 <= second_of(t) <= YEAR_9999
}

/// The texts of the times of the years 0 to 9999 stand before and after the text of
/// this time as the times do.
pub open spec fn texts_order(now: int) -> bool {
    forall|t: int| #[trigger]
        four_digit_year(t) ==> {
            &&& order::text_at_most(time_text(t), time_text(now)) == (t <= now)
            &&& order::text_at_most(time_text(now), time_text(t)) == (now <= t)
        }
}

impl Timestamp {
    #[verifier::type_invariant]
    spec fn wf(self) -> bool {
        is_time(self.at as int)
    }

    /// The time that is this many nanoseconds from the beginning of 1970, if it
    /// can be told.
    pub fn from_nanos(nanos: i128) -> (r: Option<Timestamp>)
        ensures
            r is Some <==> FIRST_SECOND * NANOS <= nanos < (LAST_SECOND + 1) * NANOS,
            r is Some ==> r->0@ == moment(nanos as int) && is_time(r->0@),
    {
        if FIRST_SECOND as i128 * NANOS <= nanos && nanos < (LAST_SECOND as i128 + 1) * NANOS {
            let secs: i128;
            let sub: i128;
            if nanos >= 0 {
                secs = nanos / NANOS;
                sub = nanos % NANOS;
            } else {
                let m: i128 = -(nanos + 1);
                secs = -(m / NANOS) - 1;
                sub = NANOS - 1 - m % NANOS;
                assert(secs * NANOS + sub == nanos);
            }
            assert(secs == nanos as int / (NANOS as int));
            assert(sub == nanos as int % (NANOS as int));
            Some(Timestamp { at: secs * STEPS + sub })
        } else {
            None
        }
    }

    /// The present time.
    pub fn now() -> (r: Timestamp)
        ensures
            0 <= r@,
            is_time(r@),
            beyond(r@) < NANOS,
    {
        let (secs, sub) = clock();
        Timestamp { at: secs as i128 * STEPS + sub as i128 }
    }

    /// The second, and the nanoseconds beyond it.
    pub fn parts(&self) -> (r: (i64, u32))
        ensures
            r.0 == second_of(self@),
            r.1 == beyond(self@),
            is_time(self@),
    {
        proof {
            use_type_invariant(self);
        }
        let n = self.at;
        if n >= 0 {
            ((n / STEPS) as i64, (n % STEPS) as u32)
        } else {
            let m: i128 = -(n + 1);
            let secs: i64 = (-(m / STEPS) - 1) as i64;
            let sub: u32 = (STEPS - 1 - m % STEPS) as u32;
            assert(secs * STEPS + sub == n);
            (secs, sub)
        }
    }

    /// Nanoseconds from the beginning of 1970, where no leap second before counts.
    pub fn nanos(&self) -> (r: i128)
        ensures
            r == unix_nanos(self@),
            is_time(self@),
    {
        let (secs, sub) = self.parts();
        secs as i128 * NANOS + sub as i128
    }

    /// Whether this time is before `other`.
    pub fn is_before(&self, other: &Timestamp) -> (r: bool)
        ensures
            r == (self@ < other@),
    {
        self.at < other.at
    }

    /// The nanoseconds from `earlier` to this time.
    pub fn nanos_since(&self, earlier: &Timestamp) -> (r: i128)
        ensures
            r == since(self@, earlier@),
            (FIRST_SECOND - LAST_SECOND - 2) * NANOS <= r <= (LAST_SECOND - FIRST_SECOND + 2)
                * NANOS,
    {
        let (a, a_sub) = self.parts();
        let (b, b_sub) = earlier.parts();
        let plain: i128 = (a as i128 - b as i128) * NANOS + a_sub as i128 - b_sub as i128;
        let x: i64 = day_second_of(a);
        let y: i64 = day_second_of(b);
        if x > y && b_sub as i128 >= NANOS {
            plain + NANOS
        } else if x < y && a_sub as i128 >= NANOS {
            plain - NANOS
        } else {
            plain
        }
    }

    /// The time this many seconds later.
    pub fn plus_seconds(&self, secs: i64) -> (r: Timestamp)
        requires
            is_time(plus(self@, secs as int)),
        ensures
            r@ == plus(self@, secs as int),
    {
        Timestamp { at: self.step(secs) }
    }

    /// Whether there is a time this many seconds later.
    pub fn can_add_seconds(&self, secs: i64) -> (r: bool)
        ensures
            r == is_time(plus(self@, secs as int)),
    {
        let at: i128 = self.step(secs);
        proof {
            use_type_invariant(self);
            lemma_plus(self@, secs as int);
        }
        FIRST_SECOND as i128 * STEPS <= at && at < (LAST_SECOND as i128 + 1) * STEPS
    }

    /// The time this many seconds later, but no later than `latest`.
    pub fn plus_seconds_until(&self, secs: u32, latest: &Timestamp) -> (r: Timestamp)
        ensures
            r@ == (if latest@ < plus(self@, secs as int) {
                latest@
            } else {
                plus(self@, secs as int)
            }),
    {
        let at: i128 = self.step(secs as i64);
        proof {
            use_type_invariant(self);
            use_type_invariant(latest);
            lemma_plus(self@, secs as int);
        }
        if latest.at < at {
            *latest
        } else {
            Timestamp { at }
        }
    }

    fn step(&self, secs: i64) -> (r: i128)
        ensures
            r == plus(self@, secs as int),
    {
        let (_, sub) = self.parts();
        if secs == 0 || (sub as i128) < NANOS {
            self.at + secs as i128 * STEPS
        } else if secs > 0 {
            self.at + secs as i128 * STEPS - NANOS
        } else {
            self.at + (secs as i128 + 1) * STEPS - NANOS
        }
    }

    /// The time in the form of RFC 3339.
    pub fn to_rfc3339(&self) -> (r: String)
        ensures
            r@ == time_text(self@),
            four_digit_year(self@) ==> text_time(r@) == Ok::<int, Seq<char>>(self@),
            four_digit_year(self@) ==> texts_order(self@),
    {
        let (secs, sub) = self.parts();
        match write_rfc3339(secs, sub) {
            Some(t) => {
                proof {
                    if four_digit_year(self@) {
                        lemma_texts_order(secs, sub, t@);
                        assert(secs * STEPS + sub == self@);
                    }
                }
                t
            },
            None => String::new(),
        }
    }

    /// Reads a time in the form of RFC 3339.
    pub fn parse(s: &str) -> (r: Result<Timestamp, String>)
        ensures
            match r {
                Ok(t) => text_time(s@) == Ok::<int, Seq<char>>(t@) && is_time(t@),
                Err(e) => text_time(s@) == Err::<int, Seq<char>>(e@),
            },
    {
        match read_rfc3339(s) {
            Ok((secs, sub)) => Ok(Timestamp { at: secs as i128 * STEPS + sub as i128 }),
            Err(e) => Err(e),
        }
    }
}

/// The second of the day.
fn day_second_of(secs: i64) -> (r: i64)
    requires
        FIRST_SECOND <= secs <= LAST_SECOND,
    ensures
        r == secs as int % 86_400,
{
    if secs >= 0 {
        secs % 86_400
    } else {
        let m: i64 = (-(secs + 1)) % 86_400;
        86_399 - m
    }
}

/// Of a later or an earlier moment only the second can be out of bounds.
proof fn lemma_plus(t: int, secs: int)
    requires
        is_time(t),
    ensures
        may_stand(second_of(plus(t, secs)), beyond(plus(t, secs))),
{
}

proof fn lemma_texts_order(secs: i64, nanos: u32, text: Seq<char>)
    requires
        orders_like(text, secs, nanos),
        rfc3339_writing(secs, nanos) == Some(text),
        may_stand(secs as int, nanos as int),
    ensures
        texts_order(secs * STEPS + nanos),
{
    let now = secs * STEPS + nanos;
    assert(second_of(now) == secs && beyond(now) == nanos);
    assert forall|t: int| #[trigger] four_digit_year(t) implies {
        &&& order::text_at_most(time_text(t), time_text(now)) == (t <= now)
        &&& order::text_at_most(time_text(now), time_text(t)) == (now <= t)
    } by {
        let s = second_of(t) as i64;
        let n = beyond(t) as u32;
        let other = rfc3339_writing(s, n)->0;
        assert(t == s * STEPS + n);
        assert(other == time_text(t));
    }
}

/// Adding seconds and taking them off again gives the same moment, outside of leap
/// seconds; and it lies that many seconds off.
pub proof fn law_plus_and_since(t: int, secs: int)
    requires
        is_time(t),
        beyond(t) < NANOS,
    ensures
        plus(plus(t, secs), -secs) == t,
        since(plus(t, secs), t) == secs * NANOS,
{
    assert(plus(t, secs) == t + secs * STEPS);
    assert(second_of(t + secs * STEPS) == second_of(t) + secs);
    assert(beyond(t + secs * STEPS) == beyond(t));
}

/// To a later moment the time that passes is never less than none, unless the
/// earlier one is in a leap second; and it is bounded.
pub proof fn law_time_passes(a: int, b: int)
    requires
        is_time(a),
        is_time(b),
    ensures
        b <= a && beyond(b) < NANOS ==> since(a, b) >= 0,
        (FIRST_SECOND - LAST_SECOND - 2) * NANOS <= since(a, b) <= (LAST_SECOND - FIRST_SECOND + 2)
            * NANOS,
{
    let x = second_of(a);
    let y = second_of(b);
    assert(a == x * STEPS + beyond(a));
    assert(b == y * STEPS + beyond(b));
    assert(unix_nanos(a) - unix_nanos(b) == (x - y) * NANOS + beyond(a) - beyond(b));
    if b <= a {
        assert(x >= y);
        if x > y {
            assert((x - y) * NANOS >= NANOS);
        }
    }
}

/// No time passes from a moment to itself.
pub proof fn law_since_itself(t: int)
    ensures
        since(t, t) == 0,
{
}

} // verus!
