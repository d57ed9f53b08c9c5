//! The sessions that are stored: their rows, how rows are read and written, and
//! which rows are wanted when.

use vstd::prelude::*;

use crate::identity;
use crate::identity::resolver::UserMapping;
use crate::identity::{GameIdentity, IgnoredIdentity, ManualGame};
use crate::number;
use crate::number::signed_decimal_of;
use crate::order;
use crate::order::{sort, Ranked};
use crate::text;
use crate::text::{chars_of, copy_opt, join3, same};
use crate::time;
use crate::time::Timestamp;

verus! {

/// How far a session has come: it goes on, waits to be pushed, has been pushed,
/// or was refused and will be pushed again.
#[derive(Debug, Clone, Copy, PartialEq, Eq, Structural)]
pub enum PushStatus {
    Active,
    Pending,
    Synced,
    Failed,
}

impl PushStatus {
    /// The name under which a status is stored.
    pub open spec fn name(self) -> Seq<char> {
        match self {
            PushStatus::Active => "active"@,
            PushStatus::Pending => "pending"@,
            PushStatus::Synced => "synced"@,
            PushStatus::Failed => "failed"@,
        }
    }

    /// The status that a name stands for. What is no name stands for `Pending`.
    pub open spec fn named(s: Seq<char>) -> PushStatus {
        if s == "active"@ {
            PushStatus::Active
        } else if s == "synced"@ {
            PushStatus::Synced
        } else if s == "failed"@ {
            PushStatus::Failed
        } else {
            PushStatus::Pending
        }
    }

    /// The session waits to be pushed.
    pub open spec fn waits(self) -> bool {
        self == PushStatus::Pending || self == PushStatus::Failed
    }

    /// The name under which the status is stored.
    pub fn as_str(&self) -> (r: &'static str)
        ensures
            r@ == self.name(),
    {
        match self {
            PushStatus::Active => "active",
            PushStatus::Pending => "pending",
            PushStatus::Synced => "synced",
            PushStatus::Failed => "failed",
        }
    }

    /// The status that a name stands for.
    pub fn parse(s: &str) -> (r: Self)
        ensures
            r == Self::named(s@),
    {
        if same(s, "active") {
            PushStatus::Active
        } else if same(s, "synced") {
            PushStatus::Synced
        } else if same(s, "failed") {
            PushStatus::Failed
        } else {
            PushStatus::Pending
        }
    }
}

/// A status is read back from the name under which it is stored.
pub proof fn law_status_reads_back(s: PushStatus)
    ensures
        PushStatus::named(s.name()) == s,
{
    reveal_strlit("active");
    reveal_strlit("synced");
    reveal_strlit("failed");
    reveal_strlit("pending");
    assert("active"@[0] == 'a');
    assert("synced"@[0] == 's');
    assert("failed"@[0] == 'f');
    assert("pending"@[0] == 'p');
}

/// A session.
#[derive(Debug)]
pub struct SessionRow {
    pub id: String,
    pub identity_id: String,
    pub title: String,
    pub steam_app_id: Option<u32>,
    pub exe: Option<String>,
    pub source: String,
    pub started_at: Timestamp,
    pub ended_at: Option<Timestamp>,
    pub duration_secs: Option<i64>,
    pub push_status: PushStatus,
    pub acked_at: Option<Timestamp>,
    pub retry_count: i64,
    pub next_retry_at: Option<Timestamp>,
    pub last_error: Option<String>,
}

/// The mathematical value of a `SessionRow`.
#[verifier::ext_equal]
pub struct RowView {
    pub id: Seq<char>,
    pub identity_id: Seq<char>,
    pub title: Seq<char>,
    pub steam_app_id: Option<u32>,
    pub exe: Option<Seq<char>>,
    pub source: Seq<char>,
    pub started_at: int,
    pub ended_at: Option<int>,
    pub duration_secs: Option<i64>,
    pub push_status: PushStatus,
    pub acked_at: Option<int>,
    pub retry_count: i64,
    pub next_retry_at: Option<int>,
    pub last_error: Option<Seq<char>>,
}

impl View for SessionRow {
    type V = RowView;

    open spec fn view(&self) -> RowView {
        RowView {
            id: self.id@,
            identity_id: self.identity_id@,
            title: self.title@,
            steam_app_id: self.steam_app_id,
            exe: text::opt_view(self.exe),
            source: self.source@,
            started_at: self.started_at@,
            ended_at: time::opt_time(self.ended_at),
            duration_secs: self.duration_secs,
            push_status: self.push_status,
            acked_at: time::opt_time(self.acked_at),
            retry_count: self.retry_count,
            next_retry_at: time::opt_time(self.next_retry_at),
            last_error: text::opt_view(self.last_error),
        }
    }
}

impl Clone for SessionRow {
    fn clone(&self) -> (r: Self)
        ensures
            r == *self,
    {
        SessionRow {
            id: self.id.clone(),
            identity_id: self.identity_id.clone(),
            title: self.title.clone(),
            steam_app_id: self.steam_app_id,
            exe: copy_opt(&self.exe),
            source: self.source.clone(),
            started_at: self.started_at,
            ended_at: self.ended_at,
            duration_secs: self.duration_secs,
            push_status: self.push_status,
            acked_at: self.acked_at,
            retry_count: self.retry_count,
            next_retry_at: self.next_retry_at,
            last_error: copy_opt(&self.last_error),
        }
    }
}

/// The values of a list of rows.
pub open spec fn row_views(s: Seq<SessionRow>) -> Seq<RowView> {
    s.map_values(|r: SessionRow| r@)
}

// ---------------------------------------------------------------------------
// Sessions that begin and end
// ---------------------------------------------------------------------------

/// The row of a session that begins.
pub open spec fn opened(i: identity::IdentityView, started_at: int, id: Seq<char>) -> RowView {
    RowView {
        id,
        identity_id: i.id,
        title: i.title,
        steam_app_id: i.steam_app_id,
        exe: i.exe,
        source: i.source,
        started_at,
        ended_at: None,
        duration_secs: None,
        push_status: PushStatus::Active,
        acked_at: None,
        retry_count: 0,
        next_retry_at: None,
        last_error: None,
    }
}

/// The row of a session that begins, under a new id.
pub fn open_row(i: &GameIdentity, started_at: Timestamp, id: String) -> (r: SessionRow)
    ensures
        r@ == opened(i@, started_at@, id@),
{
    SessionRow {
        id,
        identity_id: i.id.clone(),
        title: i.title.clone(),
        steam_app_id: i.steam_app_id,
        exe: copy_opt(&i.exe),
        source: i.source.clone(),
        started_at,
        ended_at: None,
        duration_secs: None,
        push_status: PushStatus::Active,
        acked_at: None,
        retry_count: 0,
        next_retry_at: None,
        last_error: None,
    }
}

/// A session does not end before it began.
pub open spec fn end_time(started_at: int, ended_at: int) -> int {
    if ended_at < started_at {
        started_at
    } else {
        ended_at
    }
}

/// How many whole seconds lie between two times, and never less than none.
pub open spec fn lasted(started_at: int, ended_at: int) -> int {
    if time::since(ended_at, started_at) < 0 {
        0
    } else {
        time::whole_seconds(time::since(ended_at, started_at))
    }
}

/// The row of a session that ends: it then waits to be pushed, from `now` on. A
/// session that does not go on stays as it is.
pub open spec fn ended(row: RowView, ended_at: int, now: int) -> RowView {
    if row.push_status != PushStatus::Active {
        row
    } else {
        let end = end_time(row.started_at, ended_at);
        RowView {
            ended_at: Some(end),
            duration_secs: Some(lasted(row.started_at, end) as i64),
            push_status: PushStatus::Pending,
            next_retry_at: Some(now),
            ..row
        }
    }
}

/// The row of a session that ends.
pub fn end_row(row: &SessionRow, ended_at: Timestamp, now: Timestamp) -> (r: SessionRow)
    ensures
        r@ == ended(row@, ended_at@, now@),
{
    if row.push_status != PushStatus::Active {
        return row.clone();
    }
    let end = if ended_at.is_before(&row.started_at) {
        row.started_at
    } else {
        ended_at
    };
    let passed: i128 = end.nanos_since(&row.started_at);
    let duration: i64 = if passed < 0 {
        0
    } else {
        (passed / time::NANOS) as i64
    };
    SessionRow {
        ended_at: Some(end),
        duration_secs: Some(duration),
        push_status: PushStatus::Pending,
        next_retry_at: Some(now),
        ..row.clone()
    }
}

/// A session that has ended lasted as long as the time between its beginning and
/// its end, in whole seconds, and never less than none; outside of leap seconds
/// the time between them is never less.
pub proof fn law_duration(row: RowView, ended_at: int, now: int)
    requires
        row.push_status == PushStatus::Active,
        time::is_time(row.started_at),
        time::is_time(ended_at),
    ensures
        ({
            let r = ended(row, ended_at, now);
            &&& r.ended_at is Some
            &&& r.ended_at->0 >= r.started_at
            &&& r.duration_secs is Some
            &&& r.duration_secs->0 >= 0
            &&& time::since(r.ended_at->0, r.started_at) < (r.duration_secs->0 + 1) * time::NANOS
            &&& time::since(r.ended_at->0, r.started_at) >= 0 ==> r.duration_secs->0 * time::NANOS
                <= time::since(r.ended_at->0, r.started_at)
            &&& time::beyond(r.started_at) < time::NANOS ==> time::since(
                r.ended_at->0,
                r.started_at,
            ) >= 0
        }),
{
    let end = end_time(row.started_at, ended_at);
    time::law_time_passes(end, row.started_at);
    let passed = time::since(end, row.started_at);
    let secs = lasted(row.started_at, end);
    assert(passed >= 0 ==> secs * time::NANOS <= passed < (secs + 1) * time::NANOS);
    assert(0 <= secs <= time::LAST_SECOND - time::FIRST_SECOND + 2);
    assert(ended(row, ended_at, now).duration_secs == Some(secs as i64));
}

/// Ending a session twice is ending it once.
pub proof fn law_end_once(row: RowView, ended_at: int, now: int, again_at: int, again_now: int)
    ensures
        ended(ended(row, ended_at, now), again_at, again_now) == ended(row, ended_at, now),
{
}

// ---------------------------------------------------------------------------
// Pushing
// ---------------------------------------------------------------------------

/// How long to wait after a push that failed, in seconds.
pub open spec fn backoff(retry_count: i64) -> i64 {
    if retry_count == 0 {
        30
    } else if retry_count == 1 {
        120
    } else if retry_count == 2 {
        600
    } else {
        3600
    }
}

/// How long to wait after a push that failed, in seconds.
pub fn backoff_secs(retry_count: i64) -> (r: i64)
    ensures
        r == backoff(retry_count),
{
    match retry_count {
        0 => 30,
        1 => 120,
        2 => 600,
        _ => 3600,
    }
}

/// The row of a session that was pushed.
pub open spec fn synced(row: RowView, now: int) -> RowView {
    RowView {
        push_status: PushStatus::Synced,
        acked_at: Some(now),
        last_error: None,
        next_retry_at: None,
        ..row
    }
}

/// The row of a session whose push failed.
pub open spec fn failed(row: RowView, error: Seq<char>, retry_count: i64, now: int) -> RowView {
    RowView {
        push_status: PushStatus::Failed,
        last_error: Some(error),
        retry_count,
        next_retry_at: Some(time::plus(now, backoff(retry_count) as int)),
        ..row
    }
}

// ---------------------------------------------------------------------------
// Columns
// ---------------------------------------------------------------------------

/// The value of a column.
#[derive(Debug)]
pub enum DbValue {
    Null,
    Integer(i64),
    Text(String),
    /// A value of another kind, as it is shown.
    Other(String),
}

/// The mathematical value of a column.
#[verifier::ext_equal]
pub enum ColumnView {
    Null,
    Integer(i64),
    Text(Seq<char>),
    Other(Seq<char>),
}

impl View for DbValue {
    type V = ColumnView;

    open spec fn view(&self) -> ColumnView {
        match self {
            DbValue::Null => ColumnView::Null,
            DbValue::Integer(i) => ColumnView::Integer(*i),
            DbValue::Text(s) => ColumnView::Text(s@),
            DbValue::Other(s) => ColumnView::Other(s@),
        }
    }
}

/// The values of a list of columns.
pub open spec fn column_views(s: Seq<DbValue>) -> Seq<ColumnView> {
    s.map_values(|v: DbValue| v@)
}

impl ColumnView {
    /// The column as a text. A value that is no text is shown.
    pub open spec fn as_text(self) -> Option<Seq<char>> {
        match self {
            ColumnView::Null => None,
            ColumnView::Integer(i) => Some(
                "Integer("@ + number::signed_decimal(i as int) + ")"@,
            ),
            ColumnView::Text(s) => Some(s),
            ColumnView::Other(s) => Some(s),
        }
    }

    /// The column as a number. A value that is no number is none.
    pub open spec fn as_i64(self) -> Option<i64> {
        match self {
            ColumnView::Integer(i) => Some(i),
            _ => None,
        }
    }

    /// The column as a 32-bit number: the low bits of the number.
    pub open spec fn as_u32(self) -> Option<u32> {
        match self.as_i64() {
            Some(i) => Some((i as int % 0x1_0000_0000) as u32),
            None => None,
        }
    }

    /// The column as a time. A text that tells none is none.
    pub open spec fn as_time(self) -> Option<int> {
        match self.as_text() {
            Some(s) => match time::text_time(s) {
                Ok(t) => Some(t),
                Err(_) => None,
            },
            None => None,
        }
    }
}

/// The column as a text.
pub fn value_text(v: &DbValue) -> (r: Option<String>)
    ensures
        text::opt_view(r) == v@.as_text(),
{
    match v {
        DbValue::Null => None,
        DbValue::Integer(i) => {
            let d = signed_decimal_of(*i);
            Some(join3("Integer(", d.as_str(), ")"))
        },
        DbValue::Text(s) => Some(s.clone()),
        DbValue::Other(s) => Some(s.clone()),
    }
}

/// The column as a number.
pub fn value_i64(v: &DbValue) -> (r: Option<i64>)
    ensures
        r == v@.as_i64(),
{
    match v {
        DbValue::Integer(i) => Some(*i),
        _ => None,
    }
}

/// The column as a 32-bit number.
pub fn value_u32(v: &DbValue) -> (r: Option<u32>)
    ensures
        r == v@.as_u32(),
{
    match v {
        DbValue::Integer(i) => {
            let n: i64 = *i;
            if n >= 0 {
                Some((n % 0x1_0000_0000) as u32)
            } else {
                let m: i64 = (-(n + 1)) % 0x1_0000_0000;
                let low: i64 = 0xffff_ffff - m;
                assert(low == n as int % 0x1_0000_0000);
                Some(low as u32)
            }
        },
        _ => None,
    }
}

/// The column as a time.
pub fn value_time(v: &DbValue) -> (r: Option<Timestamp>)
    ensures
        time::opt_time(r) == v@.as_time(),
{
    match value_text(v) {
        Some(s) => match Timestamp::parse(s.as_str()) {
            Ok(t) => Some(t),
            Err(_) => None,
        },
        None => None,
    }
}

/// How many columns a session has: `id`, `identity_id`, `title`, `steam_app_id`,
/// `exe`, `source`, `started_at`, `ended_at`, `duration_secs`, `push_status`,
/// `acked_at`, `retry_count`, `next_retry_at` and `last_error`, in this order.
pub const SESSION_COLUMNS: usize = 14;

/// The session that the columns tell; or the first thing that is wrong with
/// them: a column that must not be null, or a beginning that is no time.
pub open spec fn session_of(c: Seq<ColumnView>) -> Result<RowView, Seq<char>> {
    if c[0].as_text() is None {
        Err("id"@)
    } else if c[1].as_text() is None {
        Err("identity"@)
    } else if c[2].as_text() is None {
        Err("title"@)
    } else if c[5].as_text() is None {
        Err("source"@)
    } else if c[6].as_text() is None {
        Err("started"@)
    } else {
        match time::text_time(c[6].as_text()->0) {
            Err(e) => Err(e),
            Ok(started_at) => Ok(
                RowView {
                    id: c[0].as_text()->0,
                    identity_id: c[1].as_text()->0,
                    title: c[2].as_text()->0,
                    steam_app_id: c[3].as_u32(),
                    exe: c[4].as_text(),
                    source: c[5].as_text()->0,
                    started_at,
                    ended_at: c[7].as_time(),
                    duration_secs: c[8].as_i64(),
                    push_status: PushStatus::named(
                        match c[9].as_text() {
                            Some(s) => s,
                            None => Seq::empty(),
                        },
                    ),
                    acked_at: c[10].as_time(),
                    retry_count: match c[11].as_i64() {
                        Some(n) => n,
                        None => 0,
                    },
                    next_retry_at: c[12].as_time(),
                    last_error: c[13].as_text(),
                },
            ),
        }
    }
}

/// The session that the columns tell.
pub fn session_from_row(c: &Vec<DbValue>) -> (r: Result<SessionRow, String>)
    requires
        c@.len() == SESSION_COLUMNS,
    ensures
        match r {
            Ok(row) => session_of(column_views(c@)) == Ok::<RowView, Seq<char>>(row@),
            Err(e) => session_of(column_views(c@)) == Err::<RowView, Seq<char>>(e@),
        },
{
    let ghost v = column_views(c@);
    assert(forall|i: int| 0 <= i < 14 ==> #[trigger] v[i] == c@[i]@);
    let id = match value_text(&c[0]) {
        Some(s) => s,
        None => {
            return Err("id".to_owned());
        },
    };
    let identity_id = match value_text(&c[1]) {
        Some(s) => s,
        None => {
            return Err("identity".to_owned());
        },
    };
    let title = match value_text(&c[2]) {
        Some(s) => s,
        None => {
            return Err("title".to_owned());
        },
    };
    let source = match value_text(&c[5]) {
        Some(s) => s,
        None => {
            return Err("source".to_owned());
        },
    };
    let started = match value_text(&c[6]) {
        Some(s) => s,
        None => {
            return Err("started".to_owned());
        },
    };
    let started_at = match Timestamp::parse(started.as_str()) {
        Ok(t) => t,
        Err(e) => {
            return Err(e);
        },
    };
    let status = match value_text(&c[9]) {
        Some(s) => s,
        None => String::new(),
    };
    let retry_count: i64 = match value_i64(&c[11]) {
        Some(n) => n,
        None => 0,
    };
    Ok(
        SessionRow {
            id,
            identity_id,
            title,
            steam_app_id: value_u32(&c[3]),
            exe: value_text(&c[4]),
            source,
            started_at,
            ended_at: value_time(&c[7]),
            duration_secs: value_i64(&c[8]),
            push_status: PushStatus::parse(status.as_str()),
            acked_at: value_time(&c[10]),
            retry_count,
            next_retry_at: value_time(&c[12]),
            last_error: value_text(&c[13]),
        },
    )
}

/// The column of an optional text.
pub open spec fn text_column(s: Option<Seq<char>>) -> ColumnView {
    match s {
        Some(t) => ColumnView::Text(t),
        None => ColumnView::Null,
    }
}

/// The column of an optional number.
pub open spec fn int_column(n: Option<i64>) -> ColumnView {
    match n {
        Some(i) => ColumnView::Integer(i),
        None => ColumnView::Null,
    }
}

/// The column of an optional time.
pub open spec fn time_column(t: Option<int>) -> ColumnView {
    match t {
        Some(n) => ColumnView::Text(time::time_text(n)),
        None => ColumnView::Null,
    }
}

/// The column of an optional 32-bit number.
pub open spec fn u32_column(n: Option<u32>) -> ColumnView {
    match n {
        Some(i) => ColumnView::Integer(i as i64),
        None => ColumnView::Null,
    }
}

/// The columns of a session.
pub open spec fn columns_of(r: RowView) -> Seq<ColumnView> {
    seq![
        ColumnView::Text(r.id),
        ColumnView::Text(r.identity_id),
        ColumnView::Text(r.title),
        u32_column(r.steam_app_id),
        text_column(r.exe),
        ColumnView::Text(r.source),
        ColumnView::Text(time::time_text(r.started_at)),
        time_column(r.ended_at),
        int_column(r.duration_secs),
        ColumnView::Text(r.push_status.name()),
        time_column(r.acked_at),
        ColumnView::Integer(r.retry_count),
        time_column(r.next_retry_at),
        text_column(r.last_error),
    ]
}

/// An optional time is of the years 0 to 9999.
pub open spec fn opt_four_digit(t: Option<int>) -> bool {
    t is Some ==> time::four_digit_year(t->0)
}

/// All times of a session are of the years 0 to 9999.
pub open spec fn four_digit_years(r: RowView) -> bool {
    &&& time::four_digit_year(r.started_at)
    &&& opt_four_digit(r.ended_at)
    &&& opt_four_digit(r.acked_at)
    &&& opt_four_digit(r.next_retry_at)
}

fn text_value(s: &Option<String>) -> (r: DbValue)
    ensures
        r@ == text_column(text::opt_view(*s)),
{
    match s {
        Some(t) => DbValue::Text(t.clone()),
        None => DbValue::Null,
    }
}

fn int_value(n: Option<i64>) -> (r: DbValue)
    ensures
        r@ == int_column(n),
{
    match n {
        Some(i) => DbValue::Integer(i),
        None => DbValue::Null,
    }
}

/// The column of an optional time. In the years 0 to 9999 it reads back.
fn time_value(t: Option<Timestamp>) -> (r: DbValue)
    ensures
        r@ == time_column(time::opt_time(t)),
        opt_four_digit(time::opt_time(t)) ==> r@.as_time() == time::opt_time(t),
        t is Some && opt_four_digit(time::opt_time(t)) ==> time::texts_order(t->0@),
{
    match t {
        Some(t) => DbValue::Text(t.to_rfc3339()),
        None => DbValue::Null,
    }
}

/// Among the rows of sessions with times of the years 0 to 9999, the row of this
/// session stands as its beginning does, and as its end does.
pub open spec fn stands_in_time(row: RowView) -> bool {
    forall|other: RowView| #[trigger]
        four_digit_years(other) ==> {
            let a = columns_of(other);
            let b = columns_of(row);
            &&& column_at_most(a[6], b[6]) == (other.started_at <= row.started_at)
            &&& column_at_most(b[6], a[6]) == (row.started_at <= other.started_at)
            &&& row.ended_at is Some && other.ended_at is Some ==> column_at_most(a[7], b[7]) == (
            other.ended_at->0 <= row.ended_at->0)
        }
}

/// The columns of a session. If its times are of the years 0 to 9999, they read
/// back as the session they were made from, and stand among the columns of other
/// sessions as its times do.
pub fn row_values(row: &SessionRow) -> (r: Vec<DbValue>)
    ensures
        column_views(r@) == columns_of(row@),
        r@.len() == SESSION_COLUMNS,
        four_digit_years(row@) ==> session_of(column_views(r@)) == Ok::<RowView, Seq<char>>(row@),
        four_digit_years(row@) ==> stands_in_time(row@),
{
    let steam: Option<i64> = match row.steam_app_id {
        Some(id) => Some(id as i64),
        None => None,
    };
    let started = row.started_at.to_rfc3339();
    let ghost started_text = started@;
    let mut r: Vec<DbValue> = Vec::new();
    r.push(DbValue::Text(row.id.clone()));
    r.push(DbValue::Text(row.identity_id.clone()));
    r.push(DbValue::Text(row.title.clone()));
    r.push(int_value(steam));
    r.push(text_value(&row.exe));
    r.push(DbValue::Text(row.source.clone()));
    r.push(DbValue::Text(started));
    r.push(time_value(row.ended_at));
    r.push(int_value(row.duration_secs));
    r.push(DbValue::Text(row.push_status.as_str().to_owned()));
    r.push(time_value(row.acked_at));
    r.push(DbValue::Integer(row.retry_count));
    r.push(time_value(row.next_retry_at));
    r.push(text_value(&row.last_error));
    proof {
        let v = column_views(r@);
        assert(v =~= columns_of(row@));
        law_status_reads_back(row.push_status);
        if four_digit_years(row@) {
            assert(v[7] == r@[7]@ && v[10] == r@[10]@ && v[12] == r@[12]@);
            assert(session_of(v)->Ok_0 =~= row@);
        }
    }
    r
}

/// The user's mapping that the columns `fingerprint`, `title` and `identity_id`
/// tell; or which of them is null.
pub fn mapping_from_row(c: &Vec<DbValue>) -> (r: Result<UserMapping, String>)
    requires
        c@.len() == 3,
    ensures
        match r {
            Ok(m) => {
                &&& c@[0]@.as_text() == Some(m.fingerprint@)
                &&& c@[1]@.as_text() == Some(m.title@)
                &&& c@[2]@.as_text() == Some(m.identity_id@)
            },
            Err(e) => {
                ||| c@[0]@.as_text() is None && e@ == "fingerprint"@
                ||| c@[0]@.as_text() is Some && c@[1]@.as_text() is None && e@ == "title"@
                ||| c@[0]@.as_text() is Some && c@[1]@.as_text() is Some && c@[2]@.as_text()
                    is None && e@ == "identity_id"@
            },
        },
{
    let fingerprint = match value_text(&c[0]) {
        Some(s) => s,
        None => {
            return Err("fingerprint".to_owned());
        },
    };
    let title = match value_text(&c[1]) {
        Some(s) => s,
        None => {
            return Err("title".to_owned());
        },
    };
    match value_text(&c[2]) {
        Some(identity_id) => Ok(UserMapping { fingerprint, title, identity_id }),
        None => Err("identity_id".to_owned()),
    }
}

/// The ignored identity that the columns `identity_id` and `title` tell; or which
/// of them is null.
pub fn ignored_from_row(c: &Vec<DbValue>) -> (r: Result<IgnoredIdentity, String>)
    requires
        c@.len() == 2,
    ensures
        match r {
            Ok(i) => {
                &&& c@[0]@.as_text() == Some(i.identity_id@)
                &&& c@[1]@.as_text() == Some(i.title@)
            },
            Err(e) => {
                ||| c@[0]@.as_text() is None && e@ == "identity_id"@
                ||| c@[0]@.as_text() is Some && c@[1]@.as_text() is None && e@ == "title"@
            },
        },
{
    let identity_id = match value_text(&c[0]) {
        Some(s) => s,
        None => {
            return Err("identity_id".to_owned());
        },
    };
    match value_text(&c[1]) {
        Some(title) => Ok(IgnoredIdentity { identity_id, title }),
        None => Err("title".to_owned()),
    }
}

/// The user's game that the columns `id`, `title`, `exe_name`, `path_hint` and
/// `steam_app_id` tell; or which of the first three is null.
pub fn manual_from_row(c: &Vec<DbValue>) -> (r: Result<ManualGame, String>)
    requires
        c@.len() == 5,
    ensures
        match r {
            Ok(g) => {
                &&& c@[0]@.as_text() == Some(g@.id)
                &&& c@[1]@.as_text() == Some(g@.title)
                &&& c@[2]@.as_text() == Some(g@.exe_name)
                &&& c@[3]@.as_text() == g@.path_hint
                &&& c@[4]@.as_u32() == g@.steam_app_id
            },
            Err(e) => {
                ||| c@[0]@.as_text() is None && e@ == "id"@
                ||| c@[0]@.as_text() is Some && c@[1]@.as_text() is None && e@ == "title"@
                ||| c@[0]@.as_text() is Some && c@[1]@.as_text() is Some && c@[2]@.as_text()
                    is None && e@ == "exe_name"@
            },
        },
{
    let id = match value_text(&c[0]) {
        Some(s) => s,
        None => {
            return Err("id".to_owned());
        },
    };
    let title = match value_text(&c[1]) {
        Some(s) => s,
        None => {
            return Err("title".to_owned());
        },
    };
    match value_text(&c[2]) {
        Some(exe_name) => Ok(
            ManualGame {
                id,
                title,
                exe_name,
                path_hint: value_text(&c[3]),
                steam_app_id: value_u32(&c[4]),
            },
        ),
        None => Err("exe_name".to_owned()),
    }
}

// ---------------------------------------------------------------------------
// Reading a table
// ---------------------------------------------------------------------------

/// The values of the rows of a table.
pub open spec fn table_views(t: Seq<Vec<DbValue>>) -> Seq<Seq<ColumnView>> {
    t.map_values(|c: Vec<DbValue>| column_views(c@))
}

/// Every row has the columns of a session.
pub open spec fn is_session_table(t: Seq<Vec<DbValue>>) -> bool {
    forall|i: int| 0 <= i < t.len() ==> (#[trigger] t[i])@.len() == SESSION_COLUMNS
}

/// The sessions that the rows tell, or what is wrong with the first that tells
/// none.
pub open spec fn read_all(t: Seq<Seq<ColumnView>>) -> Result<Seq<RowView>, Seq<char>>
    decreases t.len(),
{
    if t.len() == 0 {
        Ok(Seq::empty())
    } else {
        match read_all(t.drop_last()) {
            Err(e) => Err(e),
            Ok(rows) => match session_of(t.last()) {
                Err(e) => Err(e),
                Ok(row) => Ok(rows.push(row)),
            },
        }
    }
}

/// The list holds the sessions that the rows tell, or else tells what is wrong
/// with the first that tells none.
pub open spec fn is_read(r: Result<Vec<SessionRow>, String>, t: Seq<Seq<ColumnView>>) -> bool {
    match r {
        Ok(rows) => read_all(t) == Ok::<Seq<RowView>, Seq<char>>(row_views(rows@)),
        Err(e) => read_all(t) == Err::<Seq<RowView>, Seq<char>>(e@),
    }
}

/// What is wrong with a row stays wrong with more rows behind it.
proof fn lemma_error_stays(t: Seq<Seq<ColumnView>>, n: int)
    requires
        0 <= n <= t.len(),
        read_all(t.take(n)) is Err,
    ensures
        read_all(t) == read_all(t.take(n)),
    decreases t.len() - n,
{
    if n < t.len() {
        assert(t.take(n + 1).drop_last() == t.take(n));
        lemma_error_stays(t, n + 1);
    } else {
        assert(t.take(n) == t);
    }
}

/// Rows are read just where each of them tells a session; these are the sessions,
/// in the order of the rows.
pub proof fn law_read_all(t: Seq<Seq<ColumnView>>)
    ensures
        read_all(t) is Ok <==> forall|i: int|
            0 <= i < t.len() ==> session_of(#[trigger] t[i]) is Ok,
        read_all(t) is Ok ==> {
            &&& read_all(t)->Ok_0.len() == t.len()
            &&& forall|i: int|
                0 <= i < t.len() ==> session_of(#[trigger] t[i]) == Ok::<RowView, Seq<char>>(
                    read_all(t)->Ok_0[i],
                )
        },
    decreases t.len(),
{
    if t.len() > 0 {
        let d = t.drop_last();
        law_read_all(d);
        assert(forall|i: int| 0 <= i < d.len() ==> #[trigger] d[i] == t[i]);
        assert(t[t.len() - 1] == t.last());
        if forall|i: int| 0 <= i < t.len() ==> session_of(#[trigger] t[i]) is Ok {
            assert forall|i: int| 0 <= i < d.len() implies session_of(#[trigger] d[i]) is Ok by {
                assert(session_of(t[i]) is Ok);
            }
        }
        if read_all(t) is Ok {
            assert forall|i: int| 0 <= i < t.len() implies session_of(#[trigger] t[i]) == Ok::<
                RowView,
                Seq<char>,
            >(read_all(t)->Ok_0[i]) by {
                if i < d.len() {
                    assert(session_of(d[i]) == Ok::<RowView, Seq<char>>(read_all(d)->Ok_0[i]));
                }
            }
        }
    }
}

/// The sessions that the rows of a table tell.
pub fn sessions_from_rows(table: &Vec<Vec<DbValue>>) -> (r: Result<Vec<SessionRow>, String>)
    requires
        is_session_table(table@),
    ensures
        is_read(r, table_views(table@)),
{
    let mut all: Vec<usize> = Vec::new();
    let mut i: usize = 0;
    while i < table.len()
        invariant
            i <= table@.len(),
            all@.len() == i,
            forall|k: int| 0 <= k < i ==> #[trigger] all@[k] == k,
        decreases table.len() - i,
    {
        all.push(i);
        i = i + 1;
    }
    assert(picked(table@, all@) == table_views(table@));
    read_picked(table, &all)
}

/// The rows of a table that have these indices.
pub open spec fn picked(table: Seq<Vec<DbValue>>, at: Seq<usize>) -> Seq<Seq<ColumnView>> {
    at.map_values(|i: usize| column_views(table[i as int]@))
}

fn read_picked(table: &Vec<Vec<DbValue>>, at: &Vec<usize>) -> (r: Result<Vec<SessionRow>, String>)
    requires
        is_session_table(table@),
        forall|k: int| 0 <= k < at@.len() ==> (#[trigger] at@[k]) < table@.len(),
    ensures
        is_read(r, picked(table@, at@)),
{
    let ghost t = picked(table@, at@);
    let mut rows: Vec<SessionRow> = Vec::new();
    let mut i: usize = 0;
    assert(row_views(rows@) == Seq::<RowView>::empty());
    assert(t.take(0) == Seq::<Seq<ColumnView>>::empty());
    while i < at.len()
        invariant
            i <= at@.len(),
            is_session_table(table@),
            forall|k: int| 0 <= k < at@.len() ==> (#[trigger] at@[k]) < table@.len(),
            t == picked(table@, at@),
            read_all(t.take(i as int)) == Ok::<Seq<RowView>, Seq<char>>(row_views(rows@)),
        decreases at.len() - i,
    {
        let k: usize = at[i];
        assert(t.take(i + 1).drop_last() == t.take(i as int));
        assert(t.take(i + 1).last() == column_views(table@[k as int]@));
        match session_from_row(&table[k]) {
            Ok(row) => {
                let ghost was = rows@;
                rows.push(row);
                assert(row_views(rows@) == row_views(was).push(row@));
            },
            Err(e) => {
                proof {
                    lemma_error_stays(t, i + 1);
                }
                return Err(e);
            },
        }
        i = i + 1;
    }
    assert(t.take(i as int) == t);
    Ok(rows)
}

/// The status column says that the session goes on.
pub open spec fn columns_go_on(c: Seq<ColumnView>) -> bool {
    c[9] == ColumnView::Text(PushStatus::Active.name())
}

/// The status column says that the session waits to be pushed. Another text than
/// the two names does not say so.
pub open spec fn columns_wait(c: Seq<ColumnView>) -> bool {
    c[9] == ColumnView::Text(PushStatus::Pending.name()) || c[9] == ColumnView::Text(
        PushStatus::Failed.name(),
    )
}

/// `a` does not stand after `b` in the order of a column: first what is null, then
/// numbers, then texts by their characters, and last other values, by how they
/// are shown.
pub open spec fn column_at_most(a: ColumnView, b: ColumnView) -> bool {
    match (a, b) {
        (ColumnView::Null, _) => true,
        (_, ColumnView::Null) => false,
        (ColumnView::Integer(i), ColumnView::Integer(j)) => i <= j,
        (ColumnView::Integer(_), _) => true,
        (_, ColumnView::Integer(_)) => false,
        (ColumnView::Text(s), ColumnView::Text(t)) => order::text_at_most(s, t),
        (ColumnView::Text(_), _) => true,
        (_, ColumnView::Text(_)) => false,
        (ColumnView::Other(s), ColumnView::Other(t)) => order::text_at_most(s, t),
    }
}

proof fn lemma_column_total(a: ColumnView, b: ColumnView)
    ensures
        column_at_most(a, b) || column_at_most(b, a),
{
    match (a, b) {
        (ColumnView::Text(s), ColumnView::Text(t)) => order::lemma_text_total(s, t),
        (ColumnView::Other(s), ColumnView::Other(t)) => order::lemma_text_total(s, t),
        _ => {},
    }
}

proof fn lemma_column_transitive(a: ColumnView, b: ColumnView, c: ColumnView)
    requires
        column_at_most(a, b),
        column_at_most(b, c),
    ensures
        column_at_most(a, c),
{
    match (a, b, c) {
        (ColumnView::Text(s), ColumnView::Text(t), ColumnView::Text(u)) => {
            order::lemma_text_transitive(s, t, u);
        },
        (ColumnView::Other(s), ColumnView::Other(t), ColumnView::Other(u)) => {
            order::lemma_text_transitive(s, t, u);
        },
        _ => {},
    }
}

/// The session is to be pushed when the text of the time is `now`: it waits, has
/// an end, and its next try, if there is one, does not stand after `now`. Times
/// are compared as the texts that stand in the columns.
pub open spec fn columns_due(c: Seq<ColumnView>, now: Seq<char>) -> bool {
    &&& columns_wait(c)
    &&& c[7] != ColumnView::Null
    &&& column_at_most(c[12], ColumnView::Text(now))
}

/// The session is deleted when the sessions are purged that were acknowledged
/// before the time with this text.
pub open spec fn columns_purged(c: Seq<ColumnView>, acked_before: Seq<char>) -> bool {
    &&& c[9] == ColumnView::Text(PushStatus::Synced.name())
    &&& c[10] != ColumnView::Null
    &&& !column_at_most(ColumnView::Text(acked_before), c[10])
}

fn text_not_after(a: &str, b: &str) -> (r: bool)
    ensures
        r == order::text_at_most(a@, b@),
{
    let x = (chars_of(a), ());
    let y = (chars_of(b), ());
    x.is_at_most(&y)
}

fn value_not_after(a: &DbValue, b: &DbValue) -> (r: bool)
    ensures
        r == column_at_most(a@, b@),
{
    match (a, b) {
        (DbValue::Null, _) => true,
        (_, DbValue::Null) => false,
        (DbValue::Integer(i), DbValue::Integer(j)) => *i <= *j,
        (DbValue::Integer(_), _) => true,
        (_, DbValue::Integer(_)) => false,
        (DbValue::Text(s), DbValue::Text(t)) => text_not_after(s.as_str(), t.as_str()),
        (DbValue::Text(_), _) => true,
        (_, DbValue::Text(_)) => false,
        (DbValue::Other(s), DbValue::Other(t)) => text_not_after(s.as_str(), t.as_str()),
    }
}

fn row_waits(c: &Vec<DbValue>) -> (r: bool)
    requires
        c@.len() == SESSION_COLUMNS,
    ensures
        r == columns_wait(column_views(c@)),
{
    assert(column_views(c@)[9] == c@[9]@);
    match &c[9] {
        DbValue::Text(s) => same(s.as_str(), "pending") || same(s.as_str(), "failed"),
        _ => false,
    }
}

/// How many sessions of a table wait to be pushed.
pub open spec fn waiting(t: Seq<Seq<ColumnView>>) -> nat {
    t.filter(|c: Seq<ColumnView>| columns_wait(c)).len()
}

/// How many sessions of a table wait to be pushed.
pub fn count_pending(table: &Vec<Vec<DbValue>>) -> (r: usize)
    requires
        is_session_table(table@),
    ensures
        r == waiting(table_views(table@)),
{
    let ghost t = table_views(table@);
    let ghost f = |c: Seq<ColumnView>| columns_wait(c);
    let mut n: usize = 0;
    let mut i: usize = 0;
    proof {
        reveal(Seq::filter);
    }
    assert(t.take(0).filter(f).len() == 0);
    while i < table.len()
        invariant
            n <= i <= table@.len(),
            is_session_table(table@),
            t == table_views(table@),
            f == (|c: Seq<ColumnView>| columns_wait(c)),
            n == t.take(i as int).filter(f).len(),
        decreases table.len() - i,
    {
        proof {
            reveal(Seq::filter);
            assert(t.take(i + 1).drop_last() == t.take(i as int));
            assert(t.take(i + 1).last() == column_views(table@[i as int]@));
        }
        if row_waits(&table[i]) {
            n = n + 1;
        }
        i = i + 1;
    }
    assert(t.take(i as int) == t);
    n
}

// ---------------------------------------------------------------------------
// Which rows are wanted
// ---------------------------------------------------------------------------

/// What is asked of the table of sessions.
#[derive(Debug, Clone, Copy)]
pub enum Query {
    /// The sessions that go on, oldest first.
    Active,
    /// The sessions that are to be pushed at a time, those first that ended first.
    Due(Timestamp),
    /// All sessions, newest first.
    Newest,
}

impl Query {
    /// The row is asked for.
    pub open spec fn wants(self, c: Seq<ColumnView>) -> bool {
        match self {
            Query::Active => columns_go_on(c),
            Query::Due(now) => columns_due(c, time::time_text(now@)),
            Query::Newest => true,
        }
    }

    /// The first row does not stand after the other: by the columns of the beginning
    /// or of the end.
    pub open spec fn at_most(self, a: Seq<ColumnView>, b: Seq<ColumnView>) -> bool {
        match self {
            Query::Active => column_at_most(a[6], b[6]),
            Query::Due(_) => column_at_most(a[7], b[7]),
            Query::Newest => column_at_most(b[6], a[6]),
        }
    }

    /// The rows that are asked for, in order; rows that stand equal stay as they
    /// stood.
    pub open spec fn answer(self, t: Seq<Seq<ColumnView>>) -> Seq<Seq<ColumnView>> {
        order::sorted_by(
            t.filter(|c: Seq<ColumnView>| self.wants(c)),
            |a: Seq<ColumnView>, b: Seq<ColumnView>| self.at_most(a, b),
        )
    }
}

/// Where a row stands in the order of one of its columns, or in the reverse order.
pub enum Rank<'a> {
    Up(&'a DbValue),
    Down(&'a DbValue),
}

impl<'a, T> Ranked for (Rank<'a>, T) {
    open spec fn at_most(self, other: Self) -> bool {
        match (self.0, other.0) {
            (Rank::Up(a), Rank::Up(b)) => column_at_most(a@, b@),
            (Rank::Up(_), Rank::Down(_)) => true,
            (Rank::Down(_), Rank::Up(_)) => false,
            (Rank::Down(a), Rank::Down(b)) => column_at_most(b@, a@),
        }
    }

    fn is_at_most(&self, other: &Self) -> bool {
        match (&self.0, &other.0) {
            (Rank::Up(a), Rank::Up(b)) => value_not_after(a, b),
            (Rank::Up(_), Rank::Down(_)) => true,
            (Rank::Down(_), Rank::Up(_)) => false,
            (Rank::Down(a), Rank::Down(b)) => value_not_after(b, a),
        }
    }

    proof fn lemma_total(self, other: Self) {
        match (self.0, other.0) {
            (Rank::Up(a), Rank::Up(b)) => lemma_column_total(a@, b@),
            (Rank::Down(a), Rank::Down(b)) => lemma_column_total(a@, b@),
            _ => {},
        }
    }

    proof fn lemma_transitive(self, mid: Self, other: Self) {
        match (self.0, mid.0, other.0) {
            (Rank::Up(a), Rank::Up(b), Rank::Up(c)) => lemma_column_transitive(a@, b@, c@),
            (Rank::Down(a), Rank::Down(b), Rank::Down(c)) => lemma_column_transitive(c@, b@, a@),
            _ => {},
        }
    }
}

fn row_wanted(c: &Vec<DbValue>, q: &Query, now: &DbValue) -> (r: bool)
    requires
        c@.len() == SESSION_COLUMNS,
        q matches Query::Due(t) ==> now@ == ColumnView::Text(time::time_text(t@)),
    ensures
        r == q.wants(column_views(c@)),
{
    assert(forall|i: int| 0 <= i < 14 ==> #[trigger] column_views(c@)[i] == c@[i]@);
    match q {
        Query::Active => match &c[9] {
            DbValue::Text(s) => same(s.as_str(), "active"),
            _ => false,
        },
        Query::Due(_) => {
            let ended = match &c[7] {
                DbValue::Null => false,
                _ => true,
            };
            ended && row_waits(c) && value_not_after(&c[12], now)
        },
        Query::Newest => true,
    }
}

fn rank_of<'a>(c: &'a Vec<DbValue>, q: &Query) -> (r: Rank<'a>)
    requires
        c@.len() == SESSION_COLUMNS,
    ensures
        r == (match *q {
            Query::Active => Rank::Up(&c@[6]),
            Query::Due(_) => Rank::Up(&c@[7]),
            Query::Newest => Rank::Down(&c@[6]),
        }),
{
    match q {
        Query::Active => Rank::Up(&c[6]),
        Query::Due(_) => Rank::Up(&c[7]),
        Query::Newest => Rank::Down(&c[6]),
    }
}

/// The indices of the rows that are asked for, in order.
fn pick(table: &Vec<Vec<DbValue>>, q: &Query) -> (r: Vec<usize>)
    requires
        is_session_table(table@),
    ensures
        forall|k: int| 0 <= k < r@.len() ==> (#[trigger] r@[k]) < table@.len(),
        picked(table@, r@) == q.answer(table_views(table@)),
        q matches Query::Due(now) ==> time::four_digit_year(now@) ==> time::texts_order(now@),
{
    let now = match q {
        Query::Due(now) => DbValue::Text(now.to_rfc3339()),
        _ => DbValue::Null,
    };
    let ghost t = table_views(table@);
    let ghost f = |c: Seq<ColumnView>| q.wants(c);
    let ghost le = |a: Seq<ColumnView>, b: Seq<ColumnView>| q.at_most(a, b);
    let ghost g = |p: (Rank, usize)| column_views(table@[p.1 as int]@);
    let mut pairs: Vec<(Rank, usize)> = Vec::new();
    let mut i: usize = 0;
    proof {
        reveal(Seq::filter);
    }
    assert(pairs@.map_values(g) == t.take(0).filter(f));
    while i < table.len()
        invariant
            i <= table@.len(),
            is_session_table(table@),
            t == table_views(table@),
            f == (|c: Seq<ColumnView>| q.wants(c)),
            g == (|p: (Rank, usize)| column_views(table@[p.1 as int]@)),
            q matches Query::Due(t) ==> now@ == ColumnView::Text(time::time_text(t@)),
            pairs@.map_values(g) == t.take(i as int).filter(f),
            forall|k: int|
                0 <= k < pairs@.len() ==> (#[trigger] pairs@[k]).1 < table@.len() && ranks(
                    pairs@[k].0,
                    table@[pairs@[k].1 as int]@,
                    *q,
                ),
        decreases table.len() - i,
    {
        proof {
            reveal(Seq::filter);
            assert(t.take(i + 1).drop_last() == t.take(i as int));
            assert(t.take(i + 1).last() == column_views(table@[i as int]@));
        }
        if row_wanted(&table[i], q, &now) {
            let ghost was = pairs@;
            pairs.push((rank_of(&table[i], q), i));
            assert(pairs@.map_values(g) == was.map_values(g).push(column_views(table@[i as int]@)));
        }
        i = i + 1;
    }
    assert(t.take(i as int) == t);
    let ghost s = pairs@;
    let sorted = sort(pairs);
    proof {
        assert forall|a: int, b: int| 0 <= a < s.len() && 0 <= b < s.len() implies Ranked::at_most(
            #[trigger] s[a],
            #[trigger] s[b],
        ) == le(g(s[a]), g(s[b])) by {
            assert(ranks(s[a].0, table@[s[a].1 as int]@, *q));
            assert(ranks(s[b].0, table@[s[b].1 as int]@, *q));
            assert(table@[s[a].1 as int]@.len() == SESSION_COLUMNS);
            assert(table@[s[b].1 as int]@.len() == SESSION_COLUMNS);
        }
        order::lemma_sorted_values(s, g, le);
        order::lemma_sorted_items(s);
    }
    let mut r: Vec<usize> = Vec::new();
    let mut k: usize = 0;
    while k < sorted.len()
        invariant
            k <= sorted@.len(),
            sorted@ == order::sorted(s),
            forall|j: int|
                0 <= j < order::sorted(s).len() ==> s.contains(#[trigger] order::sorted(s)[j]),
            forall|j: int| 0 <= j < s.len() ==> (#[trigger] s[j]).1 < table@.len(),
            r@.len() == k,
            forall|j: int| 0 <= j < k ==> #[trigger] r@[j] == sorted@[j].1,
            forall|j: int| 0 <= j < k ==> (#[trigger] r@[j]) < table@.len(),
        decreases sorted.len() - k,
    {
        assert(s.contains(order::sorted(s)[k as int]));
        r.push(sorted[k].1);
        k = k + 1;
    }
    assert(picked(table@, r@) == sorted@.map_values(g));
    r
}

/// The rank is that of the row in the order that is asked for.
spec fn ranks(rank: Rank, c: Seq<DbValue>, q: Query) -> bool {
    rank == (match q {
        Query::Active => Rank::Up(&c[6]),
        Query::Due(_) => Rank::Up(&c[7]),
        Query::Newest => Rank::Down(&c[6]),
    })
}

/// The first `n` items, or all if there are fewer.
pub open spec fn up_to<T>(s: Seq<T>, n: int) -> Seq<T> {
    if s.len() < n {
        s
    } else {
        s.take(n)
    }
}

/// How many sessions are pushed at a time.
pub const DUE_LIMIT: usize = 20;

/// The sessions that go on, oldest first: in the order of the texts of their
/// beginnings. Where a row of one of them tells no session, it is said what is
/// wrong.
pub fn list_active(table: &Vec<Vec<DbValue>>) -> (r: Result<Vec<SessionRow>, String>)
    requires
        is_session_table(table@),
    ensures
        is_read(r, Query::Active.answer(table_views(table@))),
{
    let at = pick(table, &Query::Active);
    read_picked(table, &at)
}

/// The first sessions to push at `now`, in the order of the texts of their ends.
/// Where a row of one of these tells no session, it is said what is wrong. Among
/// the times of the years 0 to 9999, comparing texts is comparing times.
pub fn list_due_pushes(table: &Vec<Vec<DbValue>>, now: Timestamp) -> (r: Result<
    Vec<SessionRow>,
    String,
>)
    requires
        is_session_table(table@),
    ensures
        is_read(r, up_to(Query::Due(now).answer(table_views(table@)), DUE_LIMIT as int)),
        time::four_digit_year(now@) ==> forall|row: RowView|
            four_digit_years(row) ==> (#[trigger] is_due(row, now@)) == has_waited(row, now@),
{
    let mut at = pick(table, &Query::Due(now));
    let ghost all = at@;
    if at.len() > DUE_LIMIT {
        at.truncate(DUE_LIMIT);
    }
    assert(picked(table@, at@) == up_to(picked(table@, all), DUE_LIMIT as int));
    read_picked(table, &at)
}

/// The newest `limit` sessions, newest first, by the texts of their beginnings; all
/// of them where the limit is negative. Where a row of one of these tells no
/// session, it is said what is wrong.
pub fn list_sessions(table: &Vec<Vec<DbValue>>, limit: i64) -> (r: Result<
    Vec<SessionRow>,
    String,
>)
    requires
        is_session_table(table@),
    ensures
        is_read(r, newest(table_views(table@), limit as int)),
{
    let mut at = pick(table, &Query::Newest);
    let ghost all = at@;
    let n: u64 = at.len() as u64;
    if limit >= 0 && (limit as u64) < n {
        at.truncate(limit as usize);
    }
    assert(picked(table@, at@) == newest(table_views(table@), limit as int));
    read_picked(table, &at)
}

/// The newest rows of a table, at most `limit` unless that is negative.
pub open spec fn newest(t: Seq<Seq<ColumnView>>, limit: int) -> Seq<Seq<ColumnView>> {
    let all = Query::Newest.answer(t);
    if limit < 0 {
        all
    } else {
        up_to(all, limit)
    }
}

/// The session that goes on and is the oldest, if all that go on can be read.
pub open spec fn oldest_active(t: Seq<Seq<ColumnView>>) -> Result<Option<RowView>, Seq<char>> {
    match read_all(Query::Active.answer(t)) {
        Ok(rows) => Ok(
            if rows.len() > 0 {
                Some(rows[0])
            } else {
                None
            },
        ),
        Err(e) => Err(e),
    }
}

/// The value of an optional session.
pub open spec fn opt_row(r: Option<SessionRow>) -> Option<RowView> {
    match r {
        Some(row) => Some(row@),
        None => None,
    }
}

/// The session that goes on and is the oldest.
pub fn get_active(table: &Vec<Vec<DbValue>>) -> (r: Result<Option<SessionRow>, String>)
    requires
        is_session_table(table@),
    ensures
        match r {
            Ok(row) => oldest_active(table_views(table@)) == Ok::<Option<RowView>, Seq<char>>(
                opt_row(row),
            ),
            Err(e) => oldest_active(table_views(table@)) == Err::<Option<RowView>, Seq<char>>(e@),
        },
{
    match list_active(table) {
        Ok(rows) => if rows.len() > 0 {
            assert(row_views(rows@)[0] == rows@[0]@);
            Ok(Some(rows[0].clone()))
        } else {
            assert(row_views(rows@).len() == 0);
            Ok(None)
        },
        Err(e) => Err(e),
    }
}

/// The session is to be pushed at `now`: it has ended, was not pushed yet, and the
/// text of its next try does not stand after that of `now`.
pub open spec fn is_due(r: RowView, now: int) -> bool {
    &&& r.push_status.waits()
    &&& r.ended_at is Some
    &&& r.next_retry_at is None || order::text_at_most(
        time::time_text(r.next_retry_at->0),
        time::time_text(now),
    )
}

/// The session has ended, was not pushed yet, and has waited until its next try.
pub open spec fn has_waited(r: RowView, now: int) -> bool {
    &&& r.push_status.waits()
    &&& r.ended_at is Some
    &&& r.next_retry_at is None || r.next_retry_at->0 <= now
}

/// A session that was stored is listed where its status and its times say so.
pub proof fn law_stored_is_listed(row: RowView, now: Timestamp, acked_before: int)
    ensures
        Query::Active.wants(columns_of(row)) == (row.push_status == PushStatus::Active),
        Query::Due(now).wants(columns_of(row)) == is_due(row, now@),
        columns_wait(columns_of(row)) == row.push_status.waits(),
        columns_purged(columns_of(row), time::time_text(acked_before)) == purged(row, acked_before),
{
    law_status_reads_back(row.push_status);
    law_status_reads_back(PushStatus::Active);
    law_status_reads_back(PushStatus::Pending);
    law_status_reads_back(PushStatus::Failed);
    law_status_reads_back(PushStatus::Synced);
}

/// A row that is asked for is listed as often as it stands in the table, and no
/// other row is; and the list is in order. A row that is not asked for makes no
/// difference, whatever stands in it.
pub proof fn law_answer(q: Query, t: Seq<Seq<ColumnView>>)
    ensures
        q.answer(t).to_multiset() == t.filter(|c: Seq<ColumnView>| q.wants(c)).to_multiset(),
        q.answer(t).len() == t.filter(|c: Seq<ColumnView>| q.wants(c)).len(),
        forall|k: int|
            0 <= k < q.answer(t).len() ==> q.wants(#[trigger] q.answer(t)[k]) && t.contains(
                q.answer(t)[k],
            ),
        forall|c: Seq<ColumnView>| #[trigger]
            t.contains(c) && q.wants(c) ==> q.answer(t).contains(c),
        forall|i: int, j: int|
            0 <= i < j < q.answer(t).len() ==> q.at_most(
                #[trigger] q.answer(t)[i],
                #[trigger] q.answer(t)[j],
            ),
{
    broadcast use vstd::seq_lib::group_to_multiset_ensures;

    let f = |c: Seq<ColumnView>| q.wants(c);
    let le = |a: Seq<ColumnView>, b: Seq<ColumnView>| q.at_most(a, b);
    let kept = t.filter(f);
    let r = q.answer(t);
    order::law_sorted_by_items(kept, le);
    assert(order::is_order(le)) by {
        assert forall|a: Seq<ColumnView>, b: Seq<ColumnView>| #[trigger] le(a, b) || le(b, a) by {
            lemma_column_total(a[6], b[6]);
            lemma_column_total(a[7], b[7]);
        }
        assert forall|a: Seq<ColumnView>, b: Seq<ColumnView>, c: Seq<ColumnView>| #[trigger]
            le(a, b) && #[trigger] le(b, c) implies le(a, c) by {
            match q {
                Query::Active => lemma_column_transitive(a[6], b[6], c[6]),
                Query::Due(_) => lemma_column_transitive(a[7], b[7], c[7]),
                Query::Newest => lemma_column_transitive(c[6], b[6], a[6]),
            }
        }
    }
    order::law_sorted_by(kept, le);
    assert forall|k: int| 0 <= k < r.len() implies q.wants(#[trigger] r[k]) && t.contains(r[k]) by {
        assert(r.to_multiset().count(r[k]) > 0);
        assert(kept.contains(r[k]));
        let j = choose|j: int| 0 <= j < kept.len() && kept[j] == r[k];
        t.lemma_filter_pred(f, j);
        t.lemma_filter_contains_rev(f, kept[j]);
    }
    assert forall|c: Seq<ColumnView>| #[trigger] t.contains(c) && q.wants(c) implies r.contains(
        c,
    ) by {
        let i = choose|i: int| 0 <= i < t.len() && t[i] == c;
        t.lemma_filter_contains(f, i);
        assert(kept.to_multiset().count(c) > 0);
    }
    assert forall|i: int, j: int| 0 <= i < j < r.len() implies q.at_most(
        #[trigger] r[i],
        #[trigger] r[j],
    ) by {
        assert(le(r[i], r[j]));
    }
}

/// Of two stored sessions that go on, the one that began first is listed first; and
/// of two that are to be pushed, the one that ended first; and of all, the one that
/// began last. This holds of sessions with times of the years 0 to 9999, whose rows
/// stand in time as `row_values` writes them.
pub proof fn law_listed_in_time(
    q: Query,
    t: Seq<Seq<ColumnView>>,
    a: RowView,
    b: RowView,
    i: int,
    j: int,
)
    requires
        0 <= i < j < q.answer(t).len(),
        q.answer(t)[i] == columns_of(a),
        q.answer(t)[j] == columns_of(b),
        four_digit_years(a),
        stands_in_time(b),
    ensures
        match q {
            Query::Active => a.started_at <= b.started_at,
            Query::Due(_) => a.ended_at->0 <= b.ended_at->0,
            Query::Newest => b.started_at <= a.started_at,
        },
{
    law_answer(q, t);
    assert(q.at_most(q.answer(t)[i], q.answer(t)[j]));
    assert(q.wants(q.answer(t)[i]) && q.wants(q.answer(t)[j]));
}

/// Filtering adds no item twice.
proof fn lemma_filter_once(t: Seq<Seq<ColumnView>>, f: spec_fn(Seq<ColumnView>) -> bool)
    requires
        t.no_duplicates(),
    ensures
        t.filter(f).no_duplicates(),
    decreases t.len(),
{
    reveal(Seq::filter);
    if t.len() > 0 {
        let d = t.drop_last();
        lemma_filter_once(d, f);
        if d.filter(f).contains(t.last()) {
            d.lemma_filter_contains_rev(f, t.last());
            let i = choose|i: int| 0 <= i < d.len() && d[i] == t.last();
            assert(t[i] == t[t.len() - 1]);
        }
    }
}

/// No row is listed twice.
pub proof fn law_listed_once(q: Query, t: Seq<Seq<ColumnView>>)
    requires
        t.no_duplicates(),
    ensures
        q.answer(t).no_duplicates(),
{
    let f = |c: Seq<ColumnView>| q.wants(c);
    lemma_filter_once(t, f);
    t.filter(f).lemma_multiset_has_no_duplicates();
    law_answer(q, t);
    q.answer(t).lemma_multiset_has_no_duplicates_conv();
}

// ---------------------------------------------------------------------------
// Changes
// ---------------------------------------------------------------------------

/// A change to the stored sessions.
#[derive(Debug)]
pub enum SessionChange {
    /// Adds a session.
    Insert(SessionRow),
    /// Sets the columns that tell the end of a session.
    End {
        id: String,
        ended_at: Timestamp,
        duration_secs: i64,
        next_retry_at: Timestamp,
    },
    /// Deletes a session, if it goes on.
    Discard { id: String },
    /// Marks a session as pushed.
    Synced { id: String, acked_at: Timestamp },
    /// Marks the push of a session as failed.
    Failed { id: String, error: String, retry_count: i64, next_retry_at: Timestamp },
    /// Deletes the sessions whose push was acknowledged before a time.
    Purge { acked_before: Timestamp },
}

/// The mathematical value of a `SessionChange`.
#[verifier::ext_equal]
pub enum ChangeView {
    Insert(RowView),
    End { id: Seq<char>, ended_at: int, duration_secs: i64, next_retry_at: int },
    Discard { id: Seq<char> },
    Synced { id: Seq<char>, acked_at: int },
    Failed { id: Seq<char>, error: Seq<char>, retry_count: i64, next_retry_at: int },
    Purge { acked_before: int },
}

impl View for SessionChange {
    type V = ChangeView;

    open spec fn view(&self) -> ChangeView {
        match self {
            SessionChange::Insert(row) => ChangeView::Insert(row@),
            SessionChange::End { id, ended_at, duration_secs, next_retry_at } => ChangeView::End {
                id: id@,
                ended_at: ended_at@,
                duration_secs: *duration_secs,
                next_retry_at: next_retry_at@,
            },
            SessionChange::Discard { id } => ChangeView::Discard { id: id@ },
            SessionChange::Synced { id, acked_at } => ChangeView::Synced {
                id: id@,
                acked_at: acked_at@,
            },
            SessionChange::Failed { id, error, retry_count, next_retry_at } => ChangeView::Failed {
                id: id@,
                error: error@,
                retry_count: *retry_count,
                next_retry_at: next_retry_at@,
            },
            SessionChange::Purge { acked_before } => ChangeView::Purge {
                acked_before: acked_before@,
            },
        }
    }
}

/// The values of a list of changes.
pub open spec fn change_views(s: Seq<SessionChange>) -> Seq<ChangeView> {
    s.map_values(|c: SessionChange| c@)
}

/// The session is deleted when the sessions are purged that were acknowledged
/// before a time: the text of its acknowledgement stands before that of the time.
pub open spec fn purged(r: RowView, acked_before: int) -> bool {
    &&& r.push_status == PushStatus::Synced
    &&& r.acked_at is Some
    &&& !order::text_at_most(time::time_text(acked_before), time::time_text(r.acked_at->0))
}

/// What a change makes of one stored session; none where it is deleted.
pub open spec fn row_after(r: RowView, c: ChangeView) -> Option<RowView> {
    match c {
        ChangeView::Insert(_) => Some(r),
        ChangeView::End { id, ended_at, duration_secs, next_retry_at } => if r.id == id {
            Some(
                RowView {
                    ended_at: Some(ended_at),
                    duration_secs: Some(duration_secs),
                    push_status: PushStatus::Pending,
                    next_retry_at: Some(next_retry_at),
                    ..r
                },
            )
        } else {
            Some(r)
        },
        ChangeView::Discard { id } => if r.id == id && r.push_status == PushStatus::Active {
            None
        } else {
            Some(r)
        },
        ChangeView::Synced { id, acked_at } => if r.id == id {
            Some(synced(r, acked_at))
        } else {
            Some(r)
        },
        ChangeView::Failed { id, error, retry_count, next_retry_at } => if r.id == id {
            Some(
                RowView {
                    push_status: PushStatus::Failed,
                    last_error: Some(error),
                    retry_count,
                    next_retry_at: Some(next_retry_at),
                    ..r
                },
            )
        } else {
            Some(r)
        },
        ChangeView::Purge { acked_before } => if purged(r, acked_before) {
            None
        } else {
            Some(r)
        },
    }
}

/// The column holds this text.
pub open spec fn is_text(c: ColumnView, s: Seq<char>) -> bool {
    c == ColumnView::Text(s)
}

/// What a change makes of one row of the table; none where it is deleted.
pub open spec fn columns_after(c: Seq<ColumnView>, change: ChangeView) -> Option<
    Seq<ColumnView>,
> {
    match change {
        ChangeView::Insert(_) => Some(c),
        ChangeView::End { id, ended_at, duration_secs, next_retry_at } => if is_text(c[0], id) {
            Some(
                c.update(7, ColumnView::Text(time::time_text(ended_at))).update(
                    8,
                    ColumnView::Integer(duration_secs),
                ).update(9, ColumnView::Text(PushStatus::Pending.name())).update(
                    12,
                    ColumnView::Text(time::time_text(next_retry_at)),
                ),
            )
        } else {
            Some(c)
        },
        ChangeView::Discard { id } => if is_text(c[0], id) && columns_go_on(c) {
            None
        } else {
            Some(c)
        },
        ChangeView::Synced { id, acked_at } => if is_text(c[0], id) {
            Some(
                c.update(9, ColumnView::Text(PushStatus::Synced.name())).update(
                    10,
                    ColumnView::Text(time::time_text(acked_at)),
                ).update(12, ColumnView::Null).update(13, ColumnView::Null),
            )
        } else {
            Some(c)
        },
        ChangeView::Failed { id, error, retry_count, next_retry_at } => if is_text(c[0], id) {
            Some(
                c.update(9, ColumnView::Text(PushStatus::Failed.name())).update(
                    11,
                    ColumnView::Integer(retry_count),
                ).update(12, ColumnView::Text(time::time_text(next_retry_at))).update(
                    13,
                    ColumnView::Text(error),
                ),
            )
        } else {
            Some(c)
        },
        ChangeView::Purge { acked_before } => if columns_purged(
            c,
            time::time_text(acked_before),
        ) {
            None
        } else {
            Some(c)
        },
    }
}

/// What a change makes of the row of a stored session is the row of what it makes
/// of the session.
pub proof fn law_change_of_columns(row: RowView, change: ChangeView)
    ensures
        columns_after(columns_of(row), change) == (match row_after(row, change) {
            Some(after) => Some(columns_of(after)),
            None => None,
        }),
{
    law_status_reads_back(row.push_status);
    law_status_reads_back(PushStatus::Active);
    law_status_reads_back(PushStatus::Synced);
    match (columns_after(columns_of(row), change), row_after(row, change)) {
        (Some(a), Some(b)) => {
            assert(a =~= columns_of(b));
        },
        _ => {},
    }
}

/// What a change makes of the stored sessions, by their ids.
pub open spec fn table_after(t: Map<Seq<char>, RowView>, c: ChangeView) -> Map<Seq<char>, RowView> {
    let kept = Map::new(
        |k: Seq<char>| t.contains_key(k) && row_after(t[k], c) is Some,
        |k: Seq<char>| row_after(t[k], c)->0,
    );
    match c {
        ChangeView::Insert(row) => kept.insert(row.id, row),
        _ => kept,
    }
}

/// What changes, one after the other, make of the stored sessions.
pub open spec fn table_after_all(
    t: Map<Seq<char>, RowView>,
    changes: Seq<ChangeView>,
) -> Map<Seq<char>, RowView>
    decreases changes.len(),
{
    if changes.len() == 0 {
        t
    } else {
        table_after(table_after_all(t, changes.drop_last()), changes.last())
    }
}

/// A table of sessions: each stands under its own id.
pub open spec fn is_table(t: Map<Seq<char>, RowView>) -> bool {
    forall|k: Seq<char>| #[trigger] t.contains_key(k) ==> t[k].id == k
}

/// A change keeps each session under its id.
pub proof fn law_table_kept(t: Map<Seq<char>, RowView>, c: ChangeView)
    requires
        is_table(t),
    ensures
        is_table(table_after(t, c)),
{
    assert forall|k: Seq<char>| #[trigger]
        table_after(t, c).contains_key(k) implies table_after(t, c)[k].id == k by {
        if t.contains_key(k) {
            assert(t[k].id == k);
        }
    }
}

/// The change that ends a session; none for a session that does not go on.
pub open spec fn end_change(row: RowView, ended_at: int, now: int) -> Option<ChangeView> {
    if row.push_status == PushStatus::Active {
        let e = ended(row, ended_at, now);
        Some(
            ChangeView::End {
                id: row.id,
                ended_at: e.ended_at->0,
                duration_secs: e.duration_secs->0,
                next_retry_at: now,
            },
        )
    } else {
        None
    }
}

/// The change that ends a session; none for a session that does not go on.
pub fn end_of_session(row: &SessionRow, ended_at: Timestamp, now: Timestamp) -> (r: Option<
    SessionChange,
>)
    ensures
        match r {
            Some(c) => end_change(row@, ended_at@, now@) == Some(c@),
            None => end_change(row@, ended_at@, now@) is None,
        },
{
    if row.push_status != PushStatus::Active {
        return None;
    }
    let e = end_row(row, ended_at, now);
    match (e.ended_at, e.duration_secs) {
        (Some(end), Some(secs)) => Some(
            SessionChange::End {
                id: e.id,
                ended_at: end,
                duration_secs: secs,
                next_retry_at: now,
            },
        ),
        _ => None,
    }
}

/// Ends a stored session: gives the session as it is then, and the change that is
/// to be stored. A session that does not go on stays as it is; one that is not
/// stored is missing.
pub fn end_session_at(stored: &Option<SessionRow>, ended_at: Timestamp, now: Timestamp) -> (r:
    Result<(SessionRow, Option<SessionChange>), String>)
    ensures
        match *stored {
            None => r is Err && r->Err_0@ == "missing"@,
            Some(row) => {
                &&& r is Ok
                &&& (r->Ok_0).0@ == (if row.push_status == PushStatus::Active {
                    ended(row@, ended_at@, now@)
                } else {
                    row@
                })
                &&& match (r->Ok_0).1 {
                    Some(c) => end_change(row@, ended_at@, now@) == Some(c@),
                    None => end_change(row@, ended_at@, now@) is None,
                }
            },
        },
{
    match stored {
        None => Err("missing".to_owned()),
        Some(row) => {
            let change = end_of_session(row, ended_at, now);
            if row.push_status == PushStatus::Active {
                Ok((end_row(row, ended_at, now), change))
            } else {
                Ok((row.clone(), change))
            }
        },
    }
}

/// The change that ends a session makes its row that of the ended session.
pub proof fn law_end_change(row: RowView, ended_at: int, now: int)
    requires
        row.push_status == PushStatus::Active,
    ensures
        row_after(row, end_change(row, ended_at, now)->0) == Some(ended(row, ended_at, now)),
{
}

/// The change that marks a session as pushed.
pub fn mark_synced(id: &String, now: Timestamp) -> (r: SessionChange)
    ensures
        r@ == (ChangeView::Synced { id: id@, acked_at: now@ }),
{
    SessionChange::Synced { id: id.clone(), acked_at: now }
}

/// The change that marks the push of a session as failed: it is tried again after
/// a time that grows with the number of tries.
pub fn mark_push_failed(id: &String, error: &String, retry_count: i64, now: Timestamp) -> (r:
    SessionChange)
    requires
        time::is_time(time::plus(now@, backoff(retry_count) as int)),
    ensures
        r@ == (ChangeView::Failed {
            id: id@,
            error: error@,
            retry_count,
            next_retry_at: time::plus(now@, backoff(retry_count) as int),
        }),
{
    let delay: i64 = backoff_secs(retry_count);
    SessionChange::Failed {
        id: id.clone(),
        error: error.clone(),
        retry_count,
        next_retry_at: now.plus_seconds(delay),
    }
}

/// A failed push makes the row wait for as long as the number of tries asks.
pub proof fn law_failed_change(row: RowView, error: Seq<char>, retry_count: i64, now: int)
    ensures
        row_after(
            row,
            ChangeView::Failed {
                id: row.id,
                error,
                retry_count,
                next_retry_at: time::plus(now, backoff(retry_count) as int),
            },
        ) == Some(failed(row, error, retry_count, now)),
        !has_waited(failed(row, error, retry_count, now), now),
{
}

/// A session that was pushed is never due again.
pub proof fn law_synced_is_done(row: RowView, now: int, later: int)
    ensures
        !is_due(synced(row, now), later),
{
}

/// The seconds of a number of days.
pub open spec fn days_secs(days: u32) -> int {
    days * 86_400
}

/// The change that deletes the sessions that were acknowledged more than this
/// many days before `now`.
pub fn purge_synced(older_than_days: u32, now: Timestamp) -> (r: SessionChange)
    requires
        time::is_time(time::plus(now@, -days_secs(older_than_days))),
    ensures
        r@ == (ChangeView::Purge {
            acked_before: time::plus(now@, -days_secs(older_than_days)),
        }),
{
    let back: i64 = -(older_than_days as i64 * 86_400);
    SessionChange::Purge { acked_before: now.plus_seconds(back) }
}

/// Whether there is a time this many days before `now`.
pub fn can_purge(older_than_days: u32, now: Timestamp) -> (r: bool)
    ensures
        r == time::is_time(time::plus(now@, -days_secs(older_than_days))),
{
    let back: i64 = -(older_than_days as i64 * 86_400);
    now.can_add_seconds(back)
}

/// Purging deletes nothing that was not pushed.
pub proof fn law_purge_keeps_unsent(row: RowView, acked_before: int)
    requires
        row.push_status != PushStatus::Synced,
    ensures
        row_after(row, ChangeView::Purge { acked_before }) == Some(row),
{
}

/// Discarding deletes only a session that goes on: one that has ended is kept.
pub proof fn law_discard_keeps_ended(row: RowView, id: Seq<char>)
    requires
        row.push_status != PushStatus::Active,
    ensures
        row_after(row, ChangeView::Discard { id }) == Some(row),
{
}

// ---------------------------------------------------------------------------
// Opening a session
// ---------------------------------------------------------------------------

/// The index of the oldest row of an identity; of equally old ones, the first.
pub open spec fn oldest_of(rows: Seq<RowView>, identity_id: Seq<char>) -> Option<int>
    decreases rows.len(),
{
    if rows.len() == 0 {
        None
    } else {
        let before = oldest_of(rows.drop_last(), identity_id);
        let last = rows.last();
        if last.identity_id != identity_id {
            before
        } else {
            match before {
                Some(i) => if last.started_at < rows[i].started_at {
                    Some(rows.len() - 1)
                } else {
                    before
                },
                None => Some(rows.len() - 1),
            }
        }
    }
}

/// `oldest_of` gives the oldest, and none only where there is none.
pub proof fn lemma_oldest(rows: Seq<RowView>, identity_id: Seq<char>)
    ensures
        match oldest_of(rows, identity_id) {
            Some(i) => {
                &&& 0 <= i < rows.len()
                &&& rows[i].identity_id == identity_id
                &&& forall|j: int|
                    0 <= j < rows.len() && (#[trigger] rows[j]).identity_id == identity_id
                        ==> rows[i].started_at <= rows[j].started_at
            },
            None => forall|j: int|
                0 <= j < rows.len() ==> (#[trigger] rows[j]).identity_id != identity_id,
        },
    decreases rows.len(),
{
    if rows.len() > 0 {
        let t = rows.drop_last();
        lemma_oldest(t, identity_id);
        assert(forall|j: int| 0 <= j < t.len() ==> #[trigger] rows[j] == t[j]);
    }
}

/// The index of the oldest row of an identity.
pub fn oldest_index(rows: &Vec<SessionRow>, identity_id: &str) -> (r: Option<usize>)
    ensures
        match r {
            Some(i) => i < rows@.len() && oldest_of(row_views(rows@), identity_id@) == Some(
                i as int,
            ),
            None => oldest_of(row_views(rows@), identity_id@) is None,
        },
{
    let ghost v = row_views(rows@);
    let mut best: Option<usize> = None;
    let mut i: usize = 0;
    while i < rows.len()
        invariant
            i <= rows@.len(),
            v == row_views(rows@),
            match best {
                Some(b) => b < i && oldest_of(v.take(i as int), identity_id@) == Some(b as int),
                None => oldest_of(v.take(i as int), identity_id@) is None,
            },
        decreases rows.len() - i,
    {
        assert(v.take(i + 1).drop_last() == v.take(i as int));
        assert(v.take(i + 1).last() == rows@[i as int]@);
        if same(rows[i].identity_id.as_str(), identity_id) {
            match best {
                Some(b) => {
                    assert(v.take(i + 1)[b as int] == rows@[b as int]@);
                    if rows[i].started_at.is_before(&rows[b].started_at) {
                        best = Some(i);
                    }
                },
                None => {
                    best = Some(i);
                },
            }
        }
        i = i + 1;
    }
    assert(v.take(i as int) == v);
    best
}

/// The row of the session of an identity: the oldest one that goes on, or else a
/// new one.
pub open spec fn session_row(
    actives: Seq<RowView>,
    i: identity::IdentityView,
    started_at: int,
    new_id: Seq<char>,
) -> RowView {
    match oldest_of(actives, i.id) {
        Some(k) => actives[k],
        None => opened(i, started_at, new_id),
    }
}

/// The row of the session of an identity, and whether it is new. A session that
/// goes on keeps its beginning.
pub fn open_session_at(
    actives: &Vec<SessionRow>,
    i: &GameIdentity,
    started_at: Timestamp,
    new_id: String,
) -> (r: (SessionRow, bool))
    ensures
        r.0@ == session_row(row_views(actives@), i@, started_at@, new_id@),
        r.1 == (oldest_of(row_views(actives@), i@.id) is None),
{
    match oldest_index(actives, i.id.as_str()) {
        Some(k) => (actives[k].clone(), false),
        None => (open_row(i, started_at, new_id), true),
    }
}

} // verus!
