//! The state of the application: what the user asks of it, and what the user is
//! shown.

use vstd::prelude::*;

use crate::auth;
use crate::auth::{get_access_token, TokenCache};
use crate::config;
use crate::config::AppConfig;
use crate::db;
use crate::db::SessionRow;
use crate::health;
use crate::health::RuntimeHealth;
use crate::identity;
use crate::identity::resolver;
use crate::identity::resolver::{manual_id_of, parse_exe_input, IdentityPipeline, UserMapping};
use crate::identity::steam_library;
use crate::identity::steam_library::{steam_id_of, SteamGame};
use crate::identity::{IgnoredIdentity, ManualGame, PendingDetection, TrackableGame};
use crate::keyed;
use crate::keyed::KeyedList;
use crate::live_session;
use crate::live_session::LiveSession;
use crate::order;
use crate::order::sort;
use crate::persist;
use crate::persist::{DbView, PersistCmd};
use crate::random;
use crate::random::new_id;
use crate::search;
use crate::text;
use crate::text::{
    chars_of, copy_opt, join2, same, same_ignoring_case, same_opt, trim_of, CharSet,
};
use crate::time;
use crate::time::Timestamp;

verus! {

/// How the parts of the program fare.
#[derive(Debug)]
pub struct SyncStatus {
    pub turso_ok: bool,
    pub pending_count: usize,
    pub last_error: Option<String>,
    pub active_title: Option<String>,
    pub webhook_configured: bool,
    pub last_tick_at: Option<String>,
    pub loop_alive: bool,
    pub db_reconnects: u64,
    pub detect_timeouts: u64,
}

/// What the user is shown.
#[derive(Debug)]
pub struct HomeState {
    pub sync: SyncStatus,
    pub active: Option<SessionRow>,
    pub history: Vec<SessionRow>,
    pub pending_detections: Vec<PendingDetection>,
}

/// The state of the application.
pub struct AppState {
    pub config: AppConfig,
    pub pipeline: IdentityPipeline,
    pub live: LiveSession,
    pub db_view: DbView,
    pub health: RuntimeHealth,
    pub ignored_titles: KeyedList<IgnoredIdentity>,
    pub pending_detections: Vec<PendingDetection>,
    pub last_error: Option<String>,
}

// ---------------------------------------------------------------------------
// The session that is shown
// ---------------------------------------------------------------------------

/// The row that stands for a game in memory.
pub open spec fn live_row(live: live_session::LiveView, now: int) -> db::RowView
    recommends
        live.identity is Some,
{
    let i = live.identity->0;
    db::opened(
        i,
        match live.started_at {
            Some(t) => t,
            None => now,
        },
        match live.db_session_id {
            Some(id) => id,
            None => "live:"@ + i.id,
        },
    )
}

/// The session that is shown: the stored one, unless another game is being
/// played.
pub open spec fn overlay(
    live: live_session::LiveView,
    stored: Option<db::RowView>,
    now: int,
) -> Option<db::RowView> {
    match live.identity {
        None => stored,
        Some(i) => if stored is Some && stored->0.identity_id == i.id {
            stored
        } else {
            Some(live_row(live, now))
        },
    }
}

/// The value of an optional row.
pub open spec fn opt_row(r: Option<SessionRow>) -> Option<db::RowView> {
    match r {
        Some(row) => Some(row@),
        None => None,
    }
}

/// The session that is shown: the stored one, unless another game is being
/// played.
pub fn overlay_active(live: &LiveSession, db_active: Option<SessionRow>, now: Timestamp) -> (r:
    Option<SessionRow>)
    ensures
        opt_row(r) == overlay(live@, opt_row(db_active), now@),
{
    let identity = match &live.identity {
        Some(i) => i,
        None => {
            return db_active;
        },
    };
    if let Some(a) = &db_active {
        if same(a.identity_id.as_str(), identity.id.as_str()) {
            return db_active;
        }
    }
    let id = match &live.db_session_id {
        Some(id) => id.clone(),
        None => join2("live:", identity.id.as_str()),
    };
    let started_at = match live.started_at {
        Some(t) => t,
        None => now,
    };
    Some(db::open_row(identity, started_at, id))
}

/// A game that is being played is always shown, whether it is stored or not.
pub proof fn law_playing_is_shown(
    live: live_session::LiveView,
    stored: Option<db::RowView>,
    now: int,
)
    requires
        live.identity is Some,
    ensures
        overlay(live, stored, now) is Some,
        overlay(live, stored, now)->0.identity_id == live.identity->0.id,
{
}

// ---------------------------------------------------------------------------
// The games that can be tracked
// ---------------------------------------------------------------------------

/// A text in Unicode lower case.
pub uninterp spec fn unicode_lower(s: Seq<char>) -> Seq<char>;

/// Every character is an ASCII character.
pub open spec fn all_ascii(s: Seq<char>) -> bool {
    forall|i: int| 0 <= i < s.len() ==> (#[trigger] s[i]) as u32 <= 0x7f
}

/// `str::to_lowercase` of the standard library: a function of the text. In an
/// ASCII text the capital letters become small ones, and the rest stays.
#[verifier::external_body]
fn lower_case(s: &str) -> (r: String)
    ensures
        r@ == unicode_lower(s@),
        all_ascii(s@) ==> r@ == text::lower(s@),
{
    s.to_lowercase()
}

/// The values of a list of games.
pub open spec fn game_views(s: Seq<TrackableGame>) -> Seq<identity::TrackableView> {
    s.map_values(|g: TrackableGame| g@)
}

/// The row of an installed Steam game.
pub open spec fn steam_row(g: SteamGame, ignored: Seq<String>) -> identity::TrackableView {
    identity::TrackableView {
        id: steam_library::steam_id(g.app_id),
        title: g.title@,
        steam_app_id: Some(g.app_id),
        source: "steam"@,
        tracking_enabled: !keyed::has_key(ignored, steam_library::steam_id(g.app_id)),
    }
}

/// The rows of the installed Steam games, in this order.
pub open spec fn steam_rows(
    ids: Seq<u32>,
    games: Map<u32, SteamGame>,
    ignored: Seq<String>,
) -> Seq<identity::TrackableView> {
    ids.map_values(|k: u32| steam_row(games[k], ignored))
}

/// Some row has this id.
pub open spec fn listed(rows: Seq<identity::TrackableView>, id: Seq<char>) -> bool {
    row_index(rows, id) is Some
}

/// The place of the first row with this id.
pub open spec fn row_index(rows: Seq<identity::TrackableView>, id: Seq<char>) -> Option<int> {
    search::first_where(rows, |g: identity::TrackableView| g.id == id)
}

/// The rows with those of the user's mappings that are not listed.
pub open spec fn with_mappings(
    rows: Seq<identity::TrackableView>,
    mappings: Seq<UserMapping>,
    ignored: Seq<String>,
) -> Seq<identity::TrackableView>
    decreases mappings.len(),
{
    if mappings.len() == 0 {
        rows
    } else {
        let before = with_mappings(rows, mappings.drop_last(), ignored);
        let m = mappings.last();
        if listed(before, m.identity_id@) {
            before
        } else {
            before.push(
                identity::TrackableView {
                    id: m.identity_id@,
                    title: m.title@,
                    steam_app_id: None,
                    source: "user"@,
                    tracking_enabled: !keyed::has_key(ignored, m.identity_id@),
                },
            )
        }
    }
}

/// The rows with the user's games: a listed game takes over the user's title.
pub open spec fn with_manuals(
    rows: Seq<identity::TrackableView>,
    manuals: Seq<identity::ManualView>,
    ignored: Seq<String>,
) -> Seq<identity::TrackableView>
    decreases manuals.len(),
{
    if manuals.len() == 0 {
        rows
    } else {
        let before = with_manuals(rows, manuals.drop_last(), ignored);
        let m = manuals.last();
        let id = resolver::manual_id(m);
        let on = !keyed::has_key(ignored, id);
        match row_index(before, id) {
            Some(k) => before.update(
                k,
                identity::TrackableView {
                    source: "manual"@,
                    title: m.title,
                    tracking_enabled: on,
                    ..before[k]
                },
            ),
            None => before.push(
                identity::TrackableView {
                    id,
                    title: m.title,
                    steam_app_id: m.steam_app_id,
                    source: "manual"@,
                    tracking_enabled: on,
                },
            ),
        }
    }
}

/// The rows with the ignored identities that are not listed.
pub open spec fn with_ignored(
    rows: Seq<identity::TrackableView>,
    titles: Seq<IgnoredIdentity>,
) -> Seq<identity::TrackableView>
    decreases titles.len(),
{
    if titles.len() == 0 {
        rows
    } else {
        let before = with_ignored(rows, titles.drop_last());
        let t = titles.last();
        if listed(before, t.identity_id@) {
            before
        } else {
            before.push(
                identity::TrackableView {
                    id: t.identity_id@,
                    title: t.title@,
                    steam_app_id: None,
                    source: "ignored"@,
                    tracking_enabled: false,
                },
            )
        }
    }
}

/// A game that is not tracked has the title under which it was ignored.
pub open spec fn retitled(
    g: identity::TrackableView,
    titles: Seq<IgnoredIdentity>,
) -> identity::TrackableView {
    match keyed::lookup(titles, g.id) {
        Some(t) => if g.tracking_enabled {
            g
        } else {
            identity::TrackableView { title: t.title@, ..g }
        },
        None => g,
    }
}

/// The rows before they are sorted.
pub open spec fn unsorted_games(
    ids: Seq<u32>,
    rules: resolver::Rules,
    titles: Seq<IgnoredIdentity>,
) -> Seq<identity::TrackableView> {
    let steam = steam_rows(ids, rules.games, rules.ignored);
    let mapped = with_mappings(steam, rules.mappings, rules.ignored);
    let manual = with_manuals(mapped, rules.manual, rules.ignored);
    with_ignored(manual, titles).map_values(|g: identity::TrackableView| retitled(g, titles))
}

/// The titles in ASCII are put in lower case letter by letter.
pub open spec fn ascii_lowered(rows: Seq<identity::TrackableView>) -> bool {
    forall|i: int|
        0 <= i < rows.len() && all_ascii((#[trigger] rows[i]).title) ==> unicode_lower(
            rows[i].title,
        ) == text::lower(rows[i].title)
}

/// The order of the list: by title in lower case.
pub open spec fn by_title(a: identity::TrackableView, b: identity::TrackableView) -> bool {
    order::text_at_most(unicode_lower(a.title), unicode_lower(b.title))
}

/// The games that can be tracked, sorted by title; games with the same title stay
/// in the order in which they were found. `ids` is the order in which the Steam
/// library is walked.
pub open spec fn trackable_games(
    ids: Seq<u32>,
    rules: resolver::Rules,
    titles: Seq<IgnoredIdentity>,
) -> Seq<identity::TrackableView> {
    order::sorted_by(
        unsorted_games(ids, rules, titles),
        |a: identity::TrackableView, b: identity::TrackableView| by_title(a, b),
    )
}

fn index_of(rows: &Vec<TrackableGame>, id: &str) -> (r: Option<usize>)
    ensures
        match r {
            Some(k) => k < rows@.len() && row_index(game_views(rows@), id@) == Some(k as int),
            None => row_index(game_views(rows@), id@) is None,
        },
{
    let ghost all = game_views(rows@);
    let ghost f = |g: identity::TrackableView| g.id == id@;
    let mut i: usize = 0;
    while i < rows.len()
        invariant
            i <= rows@.len(),
            all == game_views(rows@),
            f == (|g: identity::TrackableView| g.id == id@),
            forall|j: int| 0 <= j < i ==> !f(#[trigger] all[j]),
        decreases rows.len() - i,
    {
        assert(all[i as int] == rows@[i as int]@);
        if same(rows[i].id.as_str(), id) {
            proof {
                search::lemma_first_is(all, f, i as int);
            }
            return Some(i);
        }
        i = i + 1;
    }
    proof {
        search::lemma_first_where(all, f);
    }
    None
}

fn push_game(rows: &mut Vec<TrackableGame>, g: TrackableGame)
    ensures
        game_views(final(rows)@) == game_views(old(rows)@).push(g@),
{
    let ghost was = rows@;
    rows.push(g);
    assert(game_views(rows@) == game_views(was).push(g@));
}

fn add_mappings(
    rows: &mut Vec<TrackableGame>,
    mappings: &KeyedList<UserMapping>,
    ignored: &KeyedList<String>,
)
    ensures
        game_views(final(rows)@) == with_mappings(
            game_views(old(rows)@),
            mappings@,
            ignored@,
        ),
{
    let ghost start = game_views(rows@);
    let mut i: usize = 0;
    let n: usize = mappings.len();
    assert(mappings@.take(0) == Seq::<UserMapping>::empty());
    while i < n
        invariant
            i <= n,
            n == mappings@.len(),
            game_views(rows@) == with_mappings(start, mappings@.take(i as int), ignored@),
        decreases n - i,
    {
        assert(mappings@.take(i + 1).drop_last() == mappings@.take(i as int));
        assert(mappings@.take(i + 1).last() == mappings@[i as int]);
        let m = mappings.at(i);
        if index_of(rows, m.identity_id.as_str()).is_none() {
            let on = !ignored.contains(m.identity_id.as_str());
            push_game(
                rows,
                TrackableGame {
                    id: m.identity_id.clone(),
                    title: m.title.clone(),
                    steam_app_id: None,
                    source: "user".to_owned(),
                    tracking_enabled: on,
                },
            );
        }
        i = i + 1;
    }
    assert(mappings@.take(i as int) == mappings@);
}

fn add_manuals(
    rows: &mut Vec<TrackableGame>,
    manuals: &Vec<ManualGame>,
    ignored: &KeyedList<String>,
)
    ensures
        game_views(final(rows)@) == with_manuals(
            game_views(old(rows)@),
            identity::manual_views(manuals@),
            ignored@,
        ),
{
    let ghost start = game_views(rows@);
    let ghost all = identity::manual_views(manuals@);
    let mut i: usize = 0;
    while i < manuals.len()
        invariant
            i <= manuals@.len(),
            all == identity::manual_views(manuals@),
            game_views(rows@) == with_manuals(start, all.take(i as int), ignored@),
        decreases manuals.len() - i,
    {
        assert(all.take(i + 1).drop_last() == all.take(i as int));
        assert(all.take(i + 1).last() == manuals@[i as int]@);
        let m = &manuals[i];
        let id = manual_id_of(m);
        let on = !ignored.contains(id.as_str());
        match index_of(rows, id.as_str()) {
            Some(k) => {
                let was = rows[k].clone();
                let ghost before = game_views(rows@);
                let g = TrackableGame {
                    source: "manual".to_owned(),
                    title: m.title.clone(),
                    tracking_enabled: on,
                    ..was
                };
                rows.set(k, g);
                assert(game_views(rows@) == before.update(k as int, g@));
            },
            None => {
                push_game(
                    rows,
                    TrackableGame {
                        id,
                        title: m.title.clone(),
                        steam_app_id: m.steam_app_id,
                        source: "manual".to_owned(),
                        tracking_enabled: on,
                    },
                );
            },
        }
        i = i + 1;
    }
    assert(all.take(i as int) == all);
}

fn add_ignored(rows: &mut Vec<TrackableGame>, titles: &KeyedList<IgnoredIdentity>)
    ensures
        game_views(final(rows)@) == with_ignored(game_views(old(rows)@), titles@),
{
    let ghost start = game_views(rows@);
    let mut i: usize = 0;
    let n: usize = titles.len();
    assert(titles@.take(0) == Seq::<IgnoredIdentity>::empty());
    while i < n
        invariant
            i <= n,
            n == titles@.len(),
            game_views(rows@) == with_ignored(start, titles@.take(i as int)),
        decreases n - i,
    {
        assert(titles@.take(i + 1).drop_last() == titles@.take(i as int));
        assert(titles@.take(i + 1).last() == titles@[i as int]);
        let t = titles.at(i);
        if index_of(rows, t.identity_id.as_str()).is_none() {
            push_game(
                rows,
                TrackableGame {
                    id: t.identity_id.clone(),
                    title: t.title.clone(),
                    steam_app_id: None,
                    source: "ignored".to_owned(),
                    tracking_enabled: false,
                },
            );
        }
        i = i + 1;
    }
    assert(titles@.take(i as int) == titles@);
}

fn retitle(g: &TrackableGame, titles: &KeyedList<IgnoredIdentity>) -> (r: TrackableGame)
    ensures
        r@ == retitled(g@, titles@),
{
    match titles.get(g.id.as_str()) {
        Some(t) => if g.tracking_enabled {
            g.clone()
        } else {
            let was = g.clone();
            TrackableGame { title: t.title.clone(), ..was }
        },
        None => g.clone(),
    }
}

fn sort_games(rows: Vec<TrackableGame>) -> (r: Vec<TrackableGame>)
    ensures
        ascii_lowered(game_views(rows@)),
        game_views(r@) == order::sorted_by(
            game_views(rows@),
            |a: identity::TrackableView, b: identity::TrackableView| by_title(a, b),
        ),
{
    let ghost le = |a: identity::TrackableView, b: identity::TrackableView| by_title(a, b);
    let ghost g = |p: (Vec<char>, TrackableGame)| p.1@;
    let mut pairs: Vec<(Vec<char>, TrackableGame)> = Vec::new();
    let mut i: usize = 0;
    while i < rows.len()
        invariant
            i <= rows@.len(),
            pairs@.len() == i,
            forall|j: int|
                0 <= j < i ==> (#[trigger] pairs@[j]).1 == rows@[j] && pairs@[j].0@
                    == unicode_lower(rows@[j].title@),
            forall|j: int|
                0 <= j < i && all_ascii((#[trigger] rows@[j]).title@) ==> unicode_lower(
                    rows@[j].title@,
                ) == text::lower(rows@[j].title@),
        decreases rows.len() - i,
    {
        let low = lower_case(rows[i].title.as_str());
        pairs.push((chars_of(low.as_str()), rows[i].clone()));
        i = i + 1;
    }
    assert(pairs@.map_values(g) == game_views(rows@));
    proof {
        assert forall|j: int|
            0 <= j < rows@.len() && all_ascii(
                (#[trigger] game_views(rows@)[j]).title,
            ) implies unicode_lower(game_views(rows@)[j].title) == text::lower(
            game_views(rows@)[j].title,
        ) by {
            assert(game_views(rows@)[j] == rows@[j]@);
        }
        assert forall|a: int, b: int|
            0 <= a < pairs@.len() && 0 <= b < pairs@.len() implies order::Ranked::at_most(
            #[trigger] pairs@[a],
            #[trigger] pairs@[b],
        ) == le(g(pairs@[a]), g(pairs@[b])) by {
            assert(pairs@[a].1 == rows@[a] && pairs@[b].1 == rows@[b]);
        }
        order::lemma_sorted_values(pairs@, g, le);
    }
    let sorted = sort(pairs);
    let ghost out = sorted@.map_values(g);
    let mut r: Vec<TrackableGame> = Vec::new();
    let mut k: usize = 0;
    assert(game_views(r@) == out.take(0));
    while k < sorted.len()
        invariant
            k <= sorted@.len(),
            g == (|p: (Vec<char>, TrackableGame)| p.1@),
            out == sorted@.map_values(g),
            game_views(r@) == out.take(k as int),
        decreases sorted.len() - k,
    {
        let ghost was = r@;
        r.push(sorted[k].1.clone());
        assert(game_views(r@) == game_views(was).push(sorted@[k as int].1@));
        assert(out.take(k + 1) == out.take(k as int).push(out[k as int]));
        k = k + 1;
    }
    assert(out.take(k as int) == out);
    r
}

impl AppState {
    /// The games that can be tracked, with the Steam library walked in this order.
    pub fn list_games_from(&self, ids: &Vec<u32>) -> (r: Vec<TrackableGame>)
        requires
            forall|i: int|
                0 <= i < ids@.len() ==> self.pipeline.steam.games@.contains_key(#[trigger] ids@[i]),
        ensures
            game_views(r@) == trackable_games(
                ids@,
                self.pipeline.rules(),
                self.ignored_titles@,
            ),
            ascii_lowered(unsorted_games(ids@, self.pipeline.rules(), self.ignored_titles@)),
    {
        broadcast use vstd::std_specs::hash::group_hash_axioms;

        let ghost games = self.pipeline.steam.games@;
        let ghost ignored = self.pipeline.ignored_identities@;
        let mut rows: Vec<TrackableGame> = Vec::new();
        let mut i: usize = 0;
        assert(game_views(rows@) == steam_rows(ids@.take(0), games, ignored));
        while i < ids.len()
            invariant
                i <= ids@.len(),
                games == self.pipeline.steam.games@,
                ignored == self.pipeline.ignored_identities@,
                forall|i: int| 0 <= i < ids@.len() ==> games.contains_key(#[trigger] ids@[i]),
                game_views(rows@) == steam_rows(ids@.take(i as int), games, ignored),
            decreases ids.len() - i,
        {
            broadcast use vstd::std_specs::hash::group_hash_axioms;

            let k: u32 = ids[i];
            assert(games.contains_key(ids@[i as int]));
            if let Some(g) = self.pipeline.steam.games.get(&k) {
                let id = steam_id_of(g.app_id);
                let on = !self.pipeline.ignored_identities.contains(id.as_str());
                let row = TrackableGame {
                    id,
                    title: g.title.clone(),
                    steam_app_id: Some(g.app_id),
                    source: "steam".to_owned(),
                    tracking_enabled: on,
                };
                assert(row@ == steam_row(games[k], ignored));
                push_game(&mut rows, row);
                assert(steam_rows(ids@.take(i + 1), games, ignored) == steam_rows(
                    ids@.take(i as int),
                    games,
                    ignored,
                ).push(row@));
            }
            i = i + 1;
        }
        assert(ids@.take(i as int) == ids@);
        add_mappings(&mut rows, &self.pipeline.user_mappings, &self.pipeline.ignored_identities);
        add_manuals(&mut rows, &self.pipeline.manual_games, &self.pipeline.ignored_identities);
        add_ignored(&mut rows, &self.ignored_titles);
        let ghost before = game_views(rows@);
        let ghost titles = self.ignored_titles@;
        let ghost h = |g: identity::TrackableView| retitled(g, titles);
        let mut titled: Vec<TrackableGame> = Vec::new();
        let mut k: usize = 0;
        assert(game_views(titled@) == before.take(0).map_values(h));
        while k < rows.len()
            invariant
                k <= rows@.len(),
                before == game_views(rows@),
                titles == self.ignored_titles@,
                h == (|g: identity::TrackableView| retitled(g, titles)),
                game_views(titled@) == before.take(k as int).map_values(h),
            decreases rows.len() - k,
        {
            let g = retitle(&rows[k], &self.ignored_titles);
            assert(before[k as int] == rows@[k as int]@);
            push_game(&mut titled, g);
            assert(before.take(k + 1).map_values(h) == before.take(k as int).map_values(h).push(
                g@,
            ));
            k = k + 1;
        }
        assert(before.take(k as int) == before);
        sort_games(titled)
    }
}

/// The games that can be tracked: the installed Steam games, those that the user
/// has confirmed or entered, and those that the user has turned off.
pub fn list_trackable_games(state: &AppState) -> (r: Vec<TrackableGame>)
    ensures
        exists|ids: Seq<u32>|
            {
                &&& ids.no_duplicates()
                &&& ids.to_set() == state.pipeline.steam.games@.dom()
                &&& game_views(r@) == #[trigger] trackable_games(
                    ids,
                    state.pipeline.rules(),
                    state.ignored_titles@,
                )
                &&& ascii_lowered(
                    unsorted_games(ids, state.pipeline.rules(), state.ignored_titles@),
                )
            },
{
    let ids = state.pipeline.steam.app_ids();
    proof {
        assert forall|i: int| 0 <= i < ids@.len() implies state.pipeline.steam.games@.contains_key(
            #[trigger] ids@[i],
        ) by {
            assert(ids@.to_set().contains(ids@[i]));
        }
    }
    state.list_games_from(&ids)
}

/// The rows have distinct ids.
pub open spec fn rows_distinct(rows: Seq<identity::TrackableView>) -> bool {
    forall|i: int, j: int| 0 <= i < j < rows.len() ==> (#[trigger] rows[i]).id != (#[trigger] rows[j]).id
}

/// No game that the user has turned off is shown as tracked.
pub open spec fn flags_agree(rows: Seq<identity::TrackableView>, ignored: Seq<String>) -> bool {
    forall|i: int|
        0 <= i < rows.len() && (#[trigger] rows[i]).tracking_enabled ==> !keyed::has_key(
            ignored,
            rows[i].id,
        )
}

/// Each game is listed once, and none that the user has turned off is shown as
/// tracked. (The Steam games stand under their app ids.)
pub proof fn law_listed_once(
    ids: Seq<u32>,
    rules: resolver::Rules,
    titles: Seq<IgnoredIdentity>,
)
    requires
        ids.no_duplicates(),
        forall|i: int| 0 <= i < ids.len() ==> rules.games[#[trigger] ids[i]].app_id == ids[i],
    ensures
        rows_distinct(trackable_games(ids, rules, titles)),
        flags_agree(trackable_games(ids, rules, titles), rules.ignored),
{
    lemma_unsorted_once(ids, rules, titles);
    lemma_sorted_once(
        unsorted_games(ids, rules, titles),
        |a: identity::TrackableView, b: identity::TrackableView| by_title(a, b),
        rules.ignored,
    );
}

/// The games are listed by title in lower case.
pub proof fn law_listed_by_title(
    ids: Seq<u32>,
    rules: resolver::Rules,
    titles: Seq<IgnoredIdentity>,
    i: int,
    j: int,
)
    requires
        0 <= i < j < trackable_games(ids, rules, titles).len(),
    ensures
        by_title(
            trackable_games(ids, rules, titles)[i],
            trackable_games(ids, rules, titles)[j],
        ),
{
    let le = |a: identity::TrackableView, b: identity::TrackableView| by_title(a, b);
    assert forall|a: identity::TrackableView, b: identity::TrackableView| #[trigger]
        le(a, b) || le(b, a) by {
        order::lemma_text_total(unicode_lower(a.title), unicode_lower(b.title));
    }
    assert forall|
        a: identity::TrackableView,
        b: identity::TrackableView,
        c: identity::TrackableView,
    | #[trigger] le(a, b) && #[trigger] le(b, c) implies le(a, c) by {
        order::lemma_text_transitive(
            unicode_lower(a.title),
            unicode_lower(b.title),
            unicode_lower(c.title),
        );
    }
    order::law_sorted_by(unsorted_games(ids, rules, titles), le);
    let rows = trackable_games(ids, rules, titles);
    assert(le(rows[i], rows[j]));
}

/// All rows come from the rows `s`.
pub open spec fn from_rows(
    rows: Seq<identity::TrackableView>,
    s: Seq<identity::TrackableView>,
) -> bool {
    forall|i: int| 0 <= i < rows.len() ==> s.contains(#[trigger] rows[i])
}

proof fn lemma_put_once(
    s: Seq<identity::TrackableView>,
    x: identity::TrackableView,
    le: spec_fn(identity::TrackableView, identity::TrackableView) -> bool,
)
    requires
        rows_distinct(s),
        forall|i: int| 0 <= i < s.len() ==> (#[trigger] s[i]).id != x.id,
    ensures
        rows_distinct(order::put_in_by(s, x, le)),
        from_rows(order::put_in_by(s, x, le), s.push(x)),
    decreases s.len(),
{
    let r = order::put_in_by(s, x, le);
    let all = s.push(x);
    if s.len() == 0 || le(s.last(), x) {
        assert forall|i: int| 0 <= i < r.len() implies all.contains(#[trigger] r[i]) by {
            assert(all[i] == r[i]);
        }
    } else {
        let t = s.drop_last();
        assert(forall|i: int| 0 <= i < t.len() ==> #[trigger] t[i] == s[i]);
        lemma_put_once(t, x, le);
        let q = order::put_in_by(t, x, le);
        let n = s.len() - 1;
        assert forall|i: int| 0 <= i < q.len() implies all.contains(#[trigger] q[i]) && q[i].id
            != s[n].id by {
            assert(t.push(x).contains(q[i]));
            let k = choose|k: int| 0 <= k < t.push(x).len() && t.push(x)[k] == q[i];
            if k < t.len() {
                assert(all[k] == q[i]);
                assert(s[k].id != s[n].id);
            } else {
                assert(all[s.len() as int] == q[i]);
                assert(s[n].id != x.id);
            }
        }
        assert forall|i: int| 0 <= i < r.len() implies all.contains(#[trigger] r[i]) by {
            if i < q.len() {
                assert(r[i] == q[i]);
            } else {
                assert(all[n] == r[i]);
            }
        }
        assert forall|i: int, j: int| 0 <= i < j < r.len() implies (#[trigger] r[i]).id
            != (#[trigger] r[j]).id by {
            assert(r[i] == q[i]);
            if j < q.len() {
                assert(r[j] == q[j]);
            }
        }
    }
}

proof fn lemma_sorted_once(
    s: Seq<identity::TrackableView>,
    le: spec_fn(identity::TrackableView, identity::TrackableView) -> bool,
    ignored: Seq<String>,
)
    requires
        rows_distinct(s),
        flags_agree(s, ignored),
    ensures
        rows_distinct(order::sorted_by(s, le)),
        from_rows(order::sorted_by(s, le), s),
        flags_agree(order::sorted_by(s, le), ignored),
    decreases s.len(),
{
    if s.len() > 0 {
        let t = s.drop_last();
        let x = s.last();
        let n = s.len() - 1;
        assert(forall|i: int| 0 <= i < t.len() ==> #[trigger] t[i] == s[i]);
        lemma_sorted_once(t, le, ignored);
        let q = order::sorted_by(t, le);
        assert forall|i: int| 0 <= i < q.len() implies (#[trigger] q[i]).id != x.id by {
            assert(t.contains(q[i]));
            let k = choose|k: int| 0 <= k < t.len() && t[k] == q[i];
            assert(s[k].id != s[n].id);
        }
        lemma_put_once(q, x, le);
        let r = order::sorted_by(s, le);
        assert forall|i: int| 0 <= i < r.len() implies s.contains(#[trigger] r[i]) by {
            assert(q.push(x).contains(r[i]));
            let k = choose|k: int| 0 <= k < q.push(x).len() && q.push(x)[k] == r[i];
            if k < q.len() {
                assert(t.contains(q[k]));
                let m = choose|m: int| 0 <= m < t.len() && t[m] == q[k];
                assert(s[m] == r[i]);
            } else {
                assert(s[n] == r[i]);
            }
        }
        assert forall|i: int| 0 <= i < r.len() && (#[trigger] r[i]).tracking_enabled implies !keyed::has_key(
            ignored,
            r[i].id,
        ) by {
            let k = choose|k: int| 0 <= k < s.len() && s[k] == r[i];
            assert(s[k].tracking_enabled);
        }
    }
}

proof fn lemma_unsorted_once(
    ids: Seq<u32>,
    rules: resolver::Rules,
    titles: Seq<IgnoredIdentity>,
)
    requires
        ids.no_duplicates(),
        forall|i: int| 0 <= i < ids.len() ==> rules.games[#[trigger] ids[i]].app_id == ids[i],
    ensures
        rows_distinct(unsorted_games(ids, rules, titles)),
        flags_agree(unsorted_games(ids, rules, titles), rules.ignored),
{
    let steam = steam_rows(ids, rules.games, rules.ignored);
    assert forall|i: int, j: int| 0 <= i < j < steam.len() implies (#[trigger] steam[i]).id
        != (#[trigger] steam[j]).id by {
        assert(ids[i] != ids[j]);
        if steam[i].id == steam[j].id {
            steam_library::law_steam_id_injective(ids[i], ids[j]);
        }
    }
    lemma_mappings_listed(steam, rules.mappings, rules.ignored);
    let mapped = with_mappings(steam, rules.mappings, rules.ignored);
    lemma_manuals_listed(mapped, rules.manual, rules.ignored);
    let manual = with_manuals(mapped, rules.manual, rules.ignored);
    lemma_ignored_listed(manual, titles, rules.ignored);
    let all = with_ignored(manual, titles);
    let h = |g: identity::TrackableView| retitled(g, titles);
    let out = all.map_values(h);
    assert forall|i: int, j: int| 0 <= i < j < out.len() implies (#[trigger] out[i]).id
        != (#[trigger] out[j]).id by {
        assert(out[i].id == all[i].id && out[j].id == all[j].id);
    }
    assert forall|i: int| 0 <= i < out.len() && (#[trigger] out[i]).tracking_enabled implies !keyed::has_key(
        rules.ignored,
        out[i].id,
    ) by {
        assert(out[i].id == all[i].id && out[i].tracking_enabled == all[i].tracking_enabled);
    }
}

/// A row with a new id at the end leaves the ids distinct.
pub proof fn lemma_push_row(rows: Seq<identity::TrackableView>, g: identity::TrackableView)
    requires
        rows_distinct(rows),
        !listed(rows, g.id),
    ensures
        rows_distinct(rows.push(g)),
{
    search::lemma_first_where(rows, |x: identity::TrackableView| x.id == g.id);
    let r = rows.push(g);
    assert forall|i: int, j: int| 0 <= i < j < r.len() implies (#[trigger] r[i]).id
        != (#[trigger] r[j]).id by {
        assert(r[i] == rows[i]);
        if j < rows.len() {
            assert(r[j] == rows[j]);
        }
    }
}

proof fn lemma_mappings_listed(
    rows: Seq<identity::TrackableView>,
    mappings: Seq<UserMapping>,
    ignored: Seq<String>,
)
    requires
        rows_distinct(rows),
        flags_agree(rows, ignored),
    ensures
        rows_distinct(with_mappings(rows, mappings, ignored)),
        flags_agree(with_mappings(rows, mappings, ignored), ignored),
    decreases mappings.len(),
{
    if mappings.len() > 0 {
        lemma_mappings_listed(rows, mappings.drop_last(), ignored);
        let before = with_mappings(rows, mappings.drop_last(), ignored);
        let after = with_mappings(rows, mappings, ignored);
        if !listed(before, mappings.last().identity_id@) {
            let g = after[before.len() as int];
            assert(after == before.push(g));
            lemma_push_row(before, g);
            assert forall|i: int| 0 <= i < after.len() && (#[trigger] after[i]).tracking_enabled implies !keyed::has_key(
                ignored,
                after[i].id,
            ) by {
                if i < before.len() {
                    assert(after[i] == before[i]);
                }
            }
        }
    }
}

proof fn lemma_manuals_listed(
    rows: Seq<identity::TrackableView>,
    manuals: Seq<identity::ManualView>,
    ignored: Seq<String>,
)
    requires
        rows_distinct(rows),
        flags_agree(rows, ignored),
    ensures
        rows_distinct(with_manuals(rows, manuals, ignored)),
        flags_agree(with_manuals(rows, manuals, ignored), ignored),
    decreases manuals.len(),
{
    if manuals.len() > 0 {
        lemma_manuals_listed(rows, manuals.drop_last(), ignored);
        let before = with_manuals(rows, manuals.drop_last(), ignored);
        let after = with_manuals(rows, manuals, ignored);
        let id = resolver::manual_id(manuals.last());
        search::lemma_first_where(before, |x: identity::TrackableView| x.id == id);
        match row_index(before, id) {
            Some(k) => {
                assert forall|i: int, j: int| 0 <= i < j < after.len() implies (
                #[trigger] after[i]).id != (#[trigger] after[j]).id by {
                    assert(after[i].id == before[i].id && after[j].id == before[j].id);
                }
                assert forall|i: int| 0 <= i < after.len() && (#[trigger] after[i]).tracking_enabled implies !keyed::has_key(
                    ignored,
                    after[i].id,
                ) by {
                    if i != k {
                        assert(after[i] == before[i]);
                    }
                }
            },
            None => {
                let g = after[before.len() as int];
                assert(after == before.push(g));
                lemma_push_row(before, g);
                assert forall|i: int| 0 <= i < after.len() && (#[trigger] after[i]).tracking_enabled implies !keyed::has_key(
                    ignored,
                    after[i].id,
                ) by {
                    if i < before.len() {
                        assert(after[i] == before[i]);
                    }
                }
            },
        }
    }
}

proof fn lemma_ignored_listed(
    rows: Seq<identity::TrackableView>,
    titles: Seq<IgnoredIdentity>,
    ignored: Seq<String>,
)
    requires
        rows_distinct(rows),
        flags_agree(rows, ignored),
    ensures
        rows_distinct(with_ignored(rows, titles)),
        flags_agree(with_ignored(rows, titles), ignored),
    decreases titles.len(),
{
    if titles.len() > 0 {
        lemma_ignored_listed(rows, titles.drop_last(), ignored);
        let before = with_ignored(rows, titles.drop_last());
        let after = with_ignored(rows, titles);
        if !listed(before, titles.last().identity_id@) {
            let g = after[before.len() as int];
            assert(after == before.push(g));
            lemma_push_row(before, g);
            assert forall|i: int| 0 <= i < after.len() && (#[trigger] after[i]).tracking_enabled implies !keyed::has_key(
                ignored,
                after[i].id,
            ) by {
                if i < before.len() {
                    assert(after[i] == before[i]);
                }
            }
        }
    }
}

// ---------------------------------------------------------------------------
// What the user asks
// ---------------------------------------------------------------------------

/// The game that the user has given a fingerprint.
pub open spec fn is_mapping(m: UserMapping, fingerprint: Seq<char>, title: Seq<char>) -> bool {
    &&& m.fingerprint@ == fingerprint
    &&& m.title@ == title
    &&& m.identity_id@ == persist::user_id(fingerprint)
}

/// The user's games with a new one: those with the same executable and hint give
/// way to it.
pub open spec fn with_manual_game(
    games: Seq<identity::ManualView>,
    g: identity::ManualView,
) -> Seq<identity::ManualView> {
    games.filter(
        |o: identity::ManualView|
            !(text::same_letters(o.exe_name, g.exe_name) && o.path_hint == g.path_hint),
    ).push(g)
}

/// Why a game cannot be entered.
pub open spec fn manual_refusal(title: Seq<char>, exe_path: Seq<char>) -> Option<Seq<char>> {
    if text::trim(title, CharSet::White).len() == 0 {
        Some("Title is required"@)
    } else {
        match resolver::exe_input(exe_path) {
            Ok(_) => None,
            Err(e) => Some(e),
        }
    }
}

/// The game that is entered.
pub open spec fn entered_game(
    title: Seq<char>,
    exe_path: Seq<char>,
    steam_app_id: Option<u32>,
    id: Seq<char>,
) -> identity::ManualView {
    let parsed = resolver::exe_input(exe_path)->Ok_0;
    identity::ManualView {
        id,
        title: text::trim(title, CharSet::White),
        exe_name: parsed.0,
        path_hint: parsed.1,
        steam_app_id,
    }
}

fn keep_other_games(games: &Vec<ManualGame>, g: &ManualGame) -> (r: Vec<ManualGame>)
    ensures
        identity::manual_views(r@) == identity::manual_views(games@).filter(
            |o: identity::ManualView|
                !(text::same_letters(o.exe_name, g@.exe_name) && o.path_hint == g@.path_hint),
        ),
{
    let ghost f = |o: identity::ManualView|
        !(text::same_letters(o.exe_name, g@.exe_name) && o.path_hint == g@.path_hint);
    let ghost all = identity::manual_views(games@);
    let mut r: Vec<ManualGame> = Vec::new();
    let mut i: usize = 0;
    proof {
        reveal(Seq::filter);
    }
    assert(identity::manual_views(r@) == all.take(0).filter(f));
    while i < games.len()
        invariant
            i <= games@.len(),
            all == identity::manual_views(games@),
            f == (|o: identity::ManualView|
                !(text::same_letters(o.exe_name, g@.exe_name) && o.path_hint == g@.path_hint)),
            identity::manual_views(r@) == all.take(i as int).filter(f),
        decreases games.len() - i,
    {
        proof {
            reveal(Seq::filter);
        }
        assert(all.take(i + 1).drop_last() == all.take(i as int));
        assert(all.take(i + 1).last() == games@[i as int]@);
        let o = &games[i];
        if !(same_ignoring_case(o.exe_name.as_str(), g.exe_name.as_str()) && same_opt(
            &o.path_hint,
            &g.path_hint,
        )) {
            let ghost was = r@;
            r.push(o.clone());
            assert(identity::manual_views(r@) == identity::manual_views(was).push(o@));
        }
        i = i + 1;
    }
    assert(all.take(i as int) == all);
    r
}

impl AppState {
    /// The state at the start: no game, nothing stored and nothing wrong.
    pub fn new(config: AppConfig, pipeline: IdentityPipeline) -> (r: Self)
        ensures
            r.config == config,
            r.pipeline == pipeline,
            r.live@ == (live_session::LiveView {
                identity: None,
                started_at: None,
                last_seen_at: None,
                db_session_id: None,
                pending_ends: Seq::empty(),
                last_tick_at: None,
            }),
            !r.db_view.turso_ok,
            r.db_view.pending_count == 0,
            r.db_view.active is None,
            r.db_view.history@.len() == 0,
            r.health == (RuntimeHealth {
                last_detect_at: None,
                last_persist_at: None,
                last_push_at: None,
                db_ok: false,
                db_generation: 0,
                db_reconnects: 0,
                detect_timeouts: 0,
                last_error: None,
            }),
            r.ignored_titles@.len() == 0,
            r.pending_detections@.len() == 0,
            r.last_error is None,
    {
        AppState {
            config,
            pipeline,
            live: LiveSession::new(),
            db_view: DbView::empty(),
            health: RuntimeHealth::default(),
            ignored_titles: KeyedList::new(),
            pending_detections: Vec::new(),
            last_error: None,
        }
    }

    /// Only the pipeline's rules, the game in memory and the ignored titles differ.
    pub open spec fn same_but_prefs(&self, other: &AppState) -> bool {
        &&& self.config == other.config
        &&& self.pipeline.same_crowd(&other.pipeline)
        &&& self.db_view == other.db_view
        &&& self.health == other.health
        &&& self.pending_detections == other.pending_detections
        &&& self.last_error == other.last_error
    }

    /// The user says which game a fingerprint is: it is tracked from now on.
    pub fn confirm_detection(&mut self, fingerprint: String, title: String) -> (r: PersistCmd)
        ensures
            final(self).same_but_prefs(old(self)),
            final(self).live == old(self).live,
            final(self).ignored_titles == old(self).ignored_titles,
            exists|m: UserMapping|
                #[trigger] is_mapping(m, fingerprint@, title@) && final(self).pipeline.rules() == (
                resolver::Rules {
                    mappings: keyed::inserted(old(self).pipeline.rules().mappings, m),
                    ignored: keyed::removed(
                        old(self).pipeline.rules().ignored,
                        persist::user_id(fingerprint@),
                    ),
                    ..old(self).pipeline.rules()
                }),
            r == (PersistCmd::Confirm { fingerprint, title }),
    {
        let identity_id = join2("user:", fingerprint.as_str());
        self.pipeline.ignored_identities.remove(identity_id.as_str());
        let m = UserMapping {
            fingerprint: fingerprint.clone(),
            title: title.clone(),
            identity_id,
        };
        assert(is_mapping(m, fingerprint@, title@));
        self.pipeline.user_mappings.insert(m);
        PersistCmd::Confirm { fingerprint, title }
    }

    /// The user does not want a game tracked: it is ignored from now on, and
    /// forgotten if it is being played.
    pub fn ignore_game(&mut self, identity_id: String, title: String) -> (r: PersistCmd)
        ensures
            final(self).same_but_prefs(old(self)),
            final(self).live@ == (if old(self).live@.identity is Some
                && old(self).live@.identity->0.id == identity_id@ {
                old(self).live@.cleared()
            } else {
                old(self).live@
            }),
            final(self).ignored_titles@ == keyed::inserted(
                old(self).ignored_titles@,
                IgnoredIdentity { identity_id, title },
            ),
            final(self).pipeline.rules() == (resolver::Rules {
                ignored: keyed::inserted(old(self).pipeline.rules().ignored, identity_id),
                ..old(self).pipeline.rules()
            }),
            keyed::has_key(final(self).pipeline.rules().ignored, identity_id@),
            r == (PersistCmd::Ignore { identity_id, title }),
    {
        if self.live.is_tracking_id(identity_id.as_str()) {
            self.live.clear_identity();
        }
        let _n: usize = self.pipeline.ignored_identities.len();
        proof {
            keyed::lemma_insert_lookup(
                self.pipeline.ignored_identities@,
                identity_id,
                identity_id@,
            );
        }
        self.pipeline.ignored_identities.insert(identity_id.clone());
        self.ignored_titles.insert(
            IgnoredIdentity { identity_id: identity_id.clone(), title: title.clone() },
        );
        PersistCmd::Ignore { identity_id, title }
    }

    /// The user wants a game tracked again.
    pub fn unignore_game(&mut self, identity_id: String) -> (r: PersistCmd)
        ensures
            final(self).same_but_prefs(old(self)),
            final(self).live == old(self).live,
            final(self).ignored_titles@ == keyed::removed(
                old(self).ignored_titles@,
                identity_id@,
            ),
            final(self).pipeline.rules() == (resolver::Rules {
                ignored: keyed::removed(old(self).pipeline.rules().ignored, identity_id@),
                ..old(self).pipeline.rules()
            }),
            !keyed::has_key(final(self).pipeline.rules().ignored, identity_id@),
            r == (PersistCmd::Unignore { identity_id }),
    {
        let _n: usize = self.pipeline.ignored_identities.len();
        proof {
            keyed::lemma_remove_lookup(
                self.pipeline.ignored_identities@,
                identity_id@,
                identity_id@,
            );
        }
        self.pipeline.ignored_identities.remove(identity_id.as_str());
        self.ignored_titles.remove(identity_id.as_str());
        PersistCmd::Unignore { identity_id }
    }

    /// The user enters a game, under this id. It needs a title and an executable.
    pub fn add_manual_game_as(
        &mut self,
        title: String,
        exe_path: String,
        steam_app_id: Option<u32>,
        id: String,
    ) -> (r: Result<(ManualGame, PersistCmd), String>)
        ensures
            final(self).same_but_prefs(old(self)),
            final(self).live == old(self).live,
            final(self).ignored_titles == old(self).ignored_titles,
            match r {
                Err(e) => {
                    &&& manual_refusal(title@, exe_path@) == Some(e@)
                    &&& final(self).pipeline.rules() == old(self).pipeline.rules()
                },
                Ok((game, cmd)) => {
                    let entered = entered_game(title@, exe_path@, steam_app_id, id@);
                    &&& manual_refusal(title@, exe_path@) is None
                    &&& game@ == entered
                    &&& cmd is AddManual
                    &&& cmd->game == game
                    &&& (cmd->AddManual_identity_id)@ == resolver::manual_id(entered)
                    &&& final(self).pipeline.rules() == (resolver::Rules {
                        manual: with_manual_game(old(self).pipeline.rules().manual, entered),
                        ignored: keyed::removed(
                            old(self).pipeline.rules().ignored,
                            resolver::manual_id(entered),
                        ),
                        ..old(self).pipeline.rules()
                    })
                },
            },
    {
        let bare = trim_of(title.as_str(), CharSet::White);
        if bare.as_str().unicode_len() == 0 {
            return Err("Title is required".to_owned());
        }
        let (exe_name, path_hint) = match parse_exe_input(exe_path.as_str()) {
            Ok(p) => p,
            Err(e) => {
                return Err(e);
            },
        };
        let game = ManualGame { id, title: bare, exe_name, path_hint, steam_app_id };
        let identity_id = manual_id_of(&game);
        self.pipeline.ignored_identities.remove(identity_id.as_str());
        let mut games = keep_other_games(&self.pipeline.manual_games, &game);
        let ghost was = games@;
        games.push(game.clone());
        assert(identity::manual_views(games@) == identity::manual_views(was).push(game@));
        self.pipeline.manual_games = games;
        let cmd = PersistCmd::AddManual { game: game.clone(), identity_id };
        Ok((game, cmd))
    }

    /// The user enters a game, under a new id.
    pub fn add_manual_game(
        &mut self,
        title: String,
        exe_path: String,
        steam_app_id: Option<u32>,
    ) -> (r: Result<(ManualGame, PersistCmd), String>)
        ensures
            final(self).same_but_prefs(old(self)),
            final(self).live == old(self).live,
            final(self).ignored_titles == old(self).ignored_titles,
            match r {
                Err(e) => {
                    &&& manual_refusal(title@, exe_path@) == Some(e@)
                    &&& final(self).pipeline.rules() == old(self).pipeline.rules()
                },
                Ok((game, cmd)) => {
                    let entered = entered_game(title@, exe_path@, steam_app_id, game@.id);
                    &&& manual_refusal(title@, exe_path@) is None
                    &&& random::is_uuid_text(game@.id)
                    &&& game@ == entered
                    &&& cmd is AddManual
                    &&& cmd->game == game
                    &&& (cmd->AddManual_identity_id)@ == resolver::manual_id(entered)
                    &&& final(self).pipeline.rules() == (resolver::Rules {
                        manual: with_manual_game(old(self).pipeline.rules().manual, entered),
                        ignored: keyed::removed(
                            old(self).pipeline.rules().ignored,
                            resolver::manual_id(entered),
                        ),
                        ..old(self).pipeline.rules()
                    })
                },
            },
    {
        let id = new_id();
        self.add_manual_game_as(title, exe_path, steam_app_id, id)
    }

    /// Takes in what is stored of the user's wishes.
    pub fn set_prefs(
        &mut self,
        mappings: Vec<UserMapping>,
        ignored: Vec<IgnoredIdentity>,
        manuals: Vec<ManualGame>,
    )
        ensures
            final(self).same_but_prefs(old(self)),
            final(self).live == old(self).live,
            final(self).ignored_titles@ == keyed::gathered(ignored@),
            final(self).pipeline.rules() == (resolver::Rules {
                mappings: keyed::gathered(mappings@),
                ignored: keyed::gathered(ignored@.map_values(|i: IgnoredIdentity| i.identity_id)),
                manual: identity::manual_views(manuals@),
                ..old(self).pipeline.rules()
            }),
    {
        let mut ids: Vec<String> = Vec::new();
        let ghost all = ignored@.map_values(|i: IgnoredIdentity| i.identity_id);
        let mut i: usize = 0;
        while i < ignored.len()
            invariant
                i <= ignored@.len(),
                *self == *old(self),
                all == ignored@.map_values(|i: IgnoredIdentity| i.identity_id),
                ids@ == all.take(i as int),
            decreases ignored.len() - i,
        {
            ids.push(ignored[i].identity_id.clone());
            assert(ids@ == all.take(i + 1));
            i = i + 1;
        }
        assert(all.take(i as int) == all);
        self.ignored_titles = KeyedList::from_items(ignored);
        self.pipeline.user_mappings = KeyedList::from_items(mappings);
        self.pipeline.ignored_identities = KeyedList::from_items(ids);
        self.pipeline.manual_games = manuals;
    }

    /// What the user is shown, at `now`.
    pub fn home_state(&self, cache: &TokenCache, now: Timestamp) -> (r: HomeState)
        requires
            self.config.poll_interval_secs <= health::LONGEST_POLL,
        ensures
            opt_row(r.active) == overlay(self.live@, opt_row(self.db_view.active), now@),
            r.history@ == self.db_view.history@,
            r.pending_detections@ == self.pending_detections@,
            r.sync.turso_ok == self.db_view.turso_ok,
            r.sync.pending_count == self.db_view.pending_count,
            r.sync.last_error == (if self.health.last_error is Some {
                self.health.last_error
            } else {
                self.last_error
            }),
            text::opt_view(r.sync.active_title) == (match opt_row(r.active) {
                Some(row) => Some(row.title),
                None => None,
            }),
            r.sync.webhook_configured == (self.config.api_root is Some && auth::access_token(
                self.config,
                *cache,
            ) is Some),
            text::opt_view(r.sync.last_tick_at) == (match self.health.detected() {
                Some(t) => Some(time::time_text(t)),
                None => None,
            }),
            r.sync.loop_alive == health::alive(
                self.health.detected(),
                self.config.poll_interval_secs,
                now@,
            ),
            r.sync.db_reconnects == self.health.db_reconnects,
            r.sync.detect_timeouts == self.health.detect_timeouts,
    {
        let stored = match &self.db_view.active {
            Some(row) => Some(row.clone()),
            None => None,
        };
        let active = overlay_active(&self.live, stored, now);
        let active_title = match &active {
            Some(row) => Some(row.title.clone()),
            None => None,
        };
        let last_error = if self.health.last_error.is_some() {
            copy_opt(&self.health.last_error)
        } else {
            copy_opt(&self.last_error)
        };
        let last_tick_at = match self.health.last_detect_at {
            Some(t) => Some(t.to_rfc3339()),
            None => None,
        };
        let sync = SyncStatus {
            turso_ok: self.db_view.turso_ok,
            pending_count: self.db_view.pending_count,
            last_error,
            active_title,
            webhook_configured: self.config.webhook_url().is_some() && get_access_token(
                &self.config,
                cache,
            ).is_some(),
            last_tick_at,
            loop_alive: self.health.loop_alive_at(self.config.poll_interval_secs, now),
            db_reconnects: self.health.db_reconnects,
            detect_timeouts: self.health.detect_timeouts,
        };
        let mut history: Vec<SessionRow> = Vec::new();
        let mut i: usize = 0;
        while i < self.db_view.history.len()
            invariant
                i <= self.db_view.history@.len(),
                history@ == self.db_view.history@.take(i as int),
            decreases self.db_view.history.len() - i,
        {
            history.push(self.db_view.history[i].clone());
            assert(history@ == self.db_view.history@.take(i + 1));
            i = i + 1;
        }
        let mut pending_detections: Vec<PendingDetection> = Vec::new();
        let mut k: usize = 0;
        while k < self.pending_detections.len()
            invariant
                k <= self.pending_detections@.len(),
                pending_detections@ == self.pending_detections@.take(k as int),
            decreases self.pending_detections.len() - k,
        {
            pending_detections.push(self.pending_detections[k].clone());
            assert(pending_detections@ == self.pending_detections@.take(k + 1));
            k = k + 1;
        }
        HomeState { sync, active, history, pending_detections }
    }
}

/// A game that the user has turned off is tracked no more: what is then found
/// holds no identity with its id.
pub proof fn law_ignored_is_never_tracked(
    rules: resolver::Rules,
    procs: Seq<identity::ProcessView>,
    fps: Seq<Seq<char>>,
    answers: Seq<Option<identity::IdentityView>>,
    id: Seq<char>,
)
    requires
        keyed::has_key(rules.ignored, id),
    ensures
        !identity::has_id(resolver::resolved(rules, procs, fps, answers).identities, id),
{
    let found = resolver::resolved(rules, procs, fps, answers).identities;
    if identity::has_id(found, id) {
        let k = choose|k: int| 0 <= k < found.len() && (#[trigger] found[k]).id == id;
        resolver::law_only_wanted_identities(rules, procs, fps, answers, k);
    }
}

/// A game that was tracked, turned off and turned on again: the rules are what
/// they were.
pub proof fn law_turned_on_again(rules: resolver::Rules, id: String)
    requires
        !keyed::has_key(rules.ignored, id@),
    ensures
        (resolver::Rules {
            ignored: keyed::removed(keyed::inserted(rules.ignored, id), id@),
            ..rules
        }) == rules,
{
    let s = rules.ignored;
    let t = keyed::inserted(s, id);
    keyed::lemma_index_of_key(s, id@);
    assert forall|j: int| 0 <= j < s.len() implies keyed::Keyed::key(#[trigger] t[j]) != id@ by {
        assert(t[j] == s[j]);
    }
    keyed::lemma_index_is(t, id@, s.len() as int);
    assert(t.remove(s.len() as int) == s);
}

} // verus!
