//! What the list of games that can be tracked tells of each game.

use vstd::prelude::*;

use crate::identity;
use crate::identity::resolver;
use crate::identity::resolver::UserMapping;
use crate::identity::steam_library;
use crate::identity::IgnoredIdentity;
use crate::keyed;
use crate::order;
use crate::search;
use crate::session;

verus! {

/// The id is that of an installed Steam game.
pub open spec fn from_steam(ids: Seq<u32>, rules: resolver::Rules, id: Seq<char>) -> bool {
    exists|i: int|
        0 <= i < ids.len() && id == steam_library::steam_id(rules.games[#[trigger] ids[i]].app_id)
}

/// The id is that of a game that the user has mapped.
pub open spec fn from_mapping(mappings: Seq<UserMapping>, id: Seq<char>) -> bool {
    exists|i: int| 0 <= i < mappings.len() && (#[trigger] mappings[i]).identity_id@ == id
}

/// The id is that of a game that the user has entered.
pub open spec fn from_manual(manual: Seq<identity::ManualView>, id: Seq<char>) -> bool {
    exists|i: int| 0 <= i < manual.len() && resolver::manual_id(#[trigger] manual[i]) == id
}

/// The id is one under which the user has turned a game off.
pub open spec fn from_title(titles: Seq<IgnoredIdentity>, id: Seq<char>) -> bool {
    exists|i: int| 0 <= i < titles.len() && (#[trigger] titles[i]).identity_id@ == id
}

/// The game is installed by Steam, mapped or entered.
pub open spec fn is_known(ids: Seq<u32>, rules: resolver::Rules, id: Seq<char>) -> bool {
    from_steam(ids, rules, id) || from_mapping(rules.mappings, id) || from_manual(
        rules.manual,
        id,
    )
}

/// Some row has this id.
pub open spec fn has_row(rows: Seq<identity::TrackableView>, id: Seq<char>) -> bool {
    exists|k: int| 0 <= k < rows.len() && (#[trigger] rows[k]).id == id
}

proof fn lemma_listed(rows: Seq<identity::TrackableView>, id: Seq<char>)
    ensures
        session::listed(rows, id) == has_row(rows, id),
        match session::row_index(rows, id) {
            Some(k) => 0 <= k < rows.len() && rows[k].id == id,
            None => true,
        },
{
    search::lemma_first_where(rows, |g: identity::TrackableView| g.id == id);
}

/// The row of a mapping.
spec fn is_mapping_row(g: identity::TrackableView, m: UserMapping, ignored: Seq<String>) -> bool {
    &&& g.id == m.identity_id@
    &&& g.title == m.title@
    &&& g.steam_app_id is None
    &&& g.source == "user"@
    &&& g.tracking_enabled == !keyed::has_key(ignored, m.identity_id@)
}

/// Some mapping has this row.
spec fn is_some_mapping_row(
    g: identity::TrackableView,
    mappings: Seq<UserMapping>,
    ignored: Seq<String>,
) -> bool {
    exists|i: int| 0 <= i < mappings.len() && is_mapping_row(g, #[trigger] mappings[i], ignored)
}

proof fn lemma_mappings(
    rows: Seq<identity::TrackableView>,
    mappings: Seq<UserMapping>,
    ignored: Seq<String>,
)
    ensures
        ({
            let r = session::with_mappings(rows, mappings, ignored);
            &&& rows.len() <= r.len()
            &&& forall|k: int| 0 <= k < rows.len() ==> #[trigger] r[k] == rows[k]
            &&& forall|k: int|
                rows.len() <= k < r.len() ==> is_some_mapping_row(
                    #[trigger] r[k],
                    mappings,
                    ignored,
                )
            &&& forall|i: int|
                0 <= i < mappings.len() ==> has_row(r, (#[trigger] mappings[i]).identity_id@)
        }),
    decreases mappings.len(),
{
    if mappings.len() > 0 {
        let t = mappings.drop_last();
        let n = t.len() as int;
        lemma_mappings(rows, t, ignored);
        let before = session::with_mappings(rows, t, ignored);
        let r = session::with_mappings(rows, mappings, ignored);
        let m = mappings[n];
        assert(m == mappings.last());
        lemma_listed(before, m.identity_id@);
        assert forall|k: int| 0 <= k < before.len() implies r[k] == #[trigger] before[k] by {}
        assert forall|k: int| rows.len() <= k < r.len() implies is_some_mapping_row(
            #[trigger] r[k],
            mappings,
            ignored,
        ) by {
            if k < before.len() {
                assert(r[k] == before[k]);
                let i = choose|i: int|
                    0 <= i < t.len() && is_mapping_row(before[k], #[trigger] t[i], ignored);
                assert(mappings[i] == t[i]);
            } else {
                assert(is_mapping_row(r[k], mappings[n], ignored));
            }
        }
        assert forall|i: int| 0 <= i < mappings.len() implies has_row(
            r,
            (#[trigger] mappings[i]).identity_id@,
        ) by {
            if i < n {
                assert(t[i] == mappings[i]);
                let k = choose|k: int|
                    0 <= k < before.len() && (#[trigger] before[k]).id == t[i].identity_id@;
                assert(r[k].id == mappings[i].identity_id@);
            } else if !session::listed(before, m.identity_id@) {
                assert(r[before.len() as int].id == m.identity_id@);
            }
        }
    }
}

/// The row is as a game that the user has entered makes it.
spec fn is_manual_row(
    g: identity::TrackableView,
    m: identity::ManualView,
    ignored: Seq<String>,
) -> bool {
    &&& g.id == resolver::manual_id(m)
    &&& g.title == m.title
    &&& g.source == "manual"@
    &&& g.tracking_enabled == !keyed::has_key(ignored, g.id)
}

/// The row is as the last game with its id that the user has entered makes it.
spec fn is_last_manual_row(
    g: identity::TrackableView,
    manual: Seq<identity::ManualView>,
    ignored: Seq<String>,
) -> bool {
    exists|i: int|
        {
            &&& 0 <= i < manual.len()
            &&& is_manual_row(g, #[trigger] manual[i], ignored)
            &&& forall|j: int|
                i < j < manual.len() ==> resolver::manual_id(#[trigger] manual[j]) != g.id
        }
}

proof fn lemma_manuals(
    rows: Seq<identity::TrackableView>,
    manual: Seq<identity::ManualView>,
    ignored: Seq<String>,
)
    requires
        session::rows_distinct(rows),
    ensures
        ({
            let r = session::with_manuals(rows, manual, ignored);
            &&& session::rows_distinct(r)
            &&& rows.len() <= r.len()
            &&& forall|k: int|
                0 <= k < rows.len() ==> (#[trigger] r[k]).id == rows[k].id && r[k].steam_app_id
                    == rows[k].steam_app_id
            &&& forall|k: int|
                0 <= k < rows.len() && !from_manual(manual, rows[k].id) ==> #[trigger] r[k]
                    == rows[k]
            &&& forall|k: int|
                0 <= k < r.len() && from_manual(manual, (#[trigger] r[k]).id)
                    ==> is_last_manual_row(r[k], manual, ignored)
            &&& forall|k: int|
                rows.len() <= k < r.len() ==> from_manual(manual, (#[trigger] r[k]).id)
            &&& forall|i: int|
                0 <= i < manual.len() ==> has_row(r, resolver::manual_id(#[trigger] manual[i]))
        }),
    decreases manual.len(),
{
    if manual.len() > 0 {
        let t = manual.drop_last();
        let n = t.len() as int;
        lemma_manuals(rows, t, ignored);
        let before = session::with_manuals(rows, t, ignored);
        let r = session::with_manuals(rows, manual, ignored);
        let m = manual[n];
        assert(m == manual.last());
        let id = resolver::manual_id(m);
        lemma_listed(before, id);
        let at = match session::row_index(before, id) {
            Some(k) => k,
            None => before.len() as int,
        };
        assert(is_manual_row(r[at], m, ignored));
        assert forall|k: int| 0 <= k < before.len() && k != at implies r[k]
            == #[trigger] before[k] by {}
        assert forall|k: int| 0 <= k < before.len() implies (#[trigger] r[k]).id == before[k].id
            && r[k].steam_app_id == before[k].steam_app_id by {}
        assert forall|k: int| 0 <= k < r.len() && k != at implies (#[trigger] r[k]).id != id by {
            if at < before.len() {
                if k < at {
                    assert(before[k].id != before[at].id);
                } else {
                    assert(before[at].id != before[k].id);
                }
            } else {
                assert(before[k].id == r[k].id);
            }
        }
        assert forall|x: Seq<char>| from_manual(t, x) implies #[trigger] from_manual(manual, x) by {
            let i = choose|i: int| 0 <= i < t.len() && resolver::manual_id(#[trigger] t[i]) == x;
            assert(manual[i] == t[i]);
        }
        assert forall|x: Seq<char>| #[trigger] from_manual(manual, x) && x != id implies from_manual(
            t,
            x,
        ) by {
            let i = choose|i: int|
                0 <= i < manual.len() && resolver::manual_id(#[trigger] manual[i]) == x;
            assert(t[i] == manual[i]);
        }
        assert(from_manual(manual, id)) by {
            assert(resolver::manual_id(manual[n]) == id);
        }
        assert(session::rows_distinct(r)) by {
            assert forall|i: int, j: int| 0 <= i < j < r.len() implies (#[trigger] r[i]).id
                != (#[trigger] r[j]).id by {
                if j < before.len() {
                    assert(before[i].id != before[j].id);
                }
            }
        }
        assert forall|k: int| 0 <= k < rows.len() && !from_manual(
            manual,
            rows[k].id,
        ) implies #[trigger] r[k] == rows[k] by {
            assert(before[k] == rows[k]);
        }
        assert forall|k: int| 0 <= k < r.len() && from_manual(
            manual,
            (#[trigger] r[k]).id,
        ) implies is_last_manual_row(r[k], manual, ignored) by {
            if k == at {
                assert(is_manual_row(r[k], manual[n], ignored));
            } else {
                assert(r[k] == before[k]);
                assert(from_manual(t, r[k].id));
                let i = choose|i: int|
                    {
                        &&& 0 <= i < t.len()
                        &&& is_manual_row(before[k], #[trigger] t[i], ignored)
                        &&& forall|j: int|
                            i < j < t.len() ==> resolver::manual_id(#[trigger] t[j])
                                != before[k].id
                    };
                assert(is_manual_row(r[k], manual[i], ignored));
                assert forall|j: int| i < j < manual.len() implies resolver::manual_id(
                    #[trigger] manual[j],
                ) != r[k].id by {
                    if j < n {
                        assert(t[j] == manual[j]);
                    }
                }
            }
        }
        assert forall|k: int| rows.len() <= k < r.len() implies from_manual(
            manual,
            (#[trigger] r[k]).id,
        ) by {
            if k < before.len() {
                assert(from_manual(t, before[k].id));
            }
        }
        assert forall|i: int| 0 <= i < manual.len() implies has_row(
            r,
            resolver::manual_id(#[trigger] manual[i]),
        ) by {
            if i < n {
                assert(t[i] == manual[i]);
                let k = choose|k: int|
                    0 <= k < before.len() && (#[trigger] before[k]).id == resolver::manual_id(t[i]);
                assert(r[k].id == resolver::manual_id(manual[i]));
            } else {
                assert(r[at].id == id);
            }
        }
    }
}

/// The row of a game that nothing but its title is known of.
spec fn is_title_row(g: identity::TrackableView, t: IgnoredIdentity) -> bool {
    &&& g.id == t.identity_id@
    &&& g.title == t.title@
    &&& g.steam_app_id is None
    &&& g.source == "ignored"@
    &&& !g.tracking_enabled
}

proof fn lemma_titles(rows: Seq<identity::TrackableView>, titles: Seq<IgnoredIdentity>)
    ensures
        ({
            let r = session::with_ignored(rows, titles);
            &&& rows.len() <= r.len()
            &&& forall|k: int| 0 <= k < rows.len() ==> #[trigger] r[k] == rows[k]
            &&& forall|k: int|
                rows.len() <= k < r.len() ==> !has_row(rows, (#[trigger] r[k]).id) && exists|i: int|
                    0 <= i < titles.len() && is_title_row(r[k], #[trigger] titles[i])
            &&& forall|i: int|
                0 <= i < titles.len() ==> has_row(r, (#[trigger] titles[i]).identity_id@)
        }),
    decreases titles.len(),
{
    if titles.len() > 0 {
        let t = titles.drop_last();
        let n = t.len() as int;
        lemma_titles(rows, t);
        let before = session::with_ignored(rows, t);
        let r = session::with_ignored(rows, titles);
        let m = titles[n];
        assert(m == titles.last());
        lemma_listed(before, m.identity_id@);
        assert forall|k: int| 0 <= k < before.len() implies r[k] == #[trigger] before[k] by {}
        assert forall|k: int| rows.len() <= k < r.len() implies !has_row(
            rows,
            (#[trigger] r[k]).id,
        ) && exists|i: int| 0 <= i < titles.len() && is_title_row(r[k], #[trigger] titles[i]) by {
            if k < before.len() {
                assert(r[k] == before[k]);
                let i = choose|i: int| 0 <= i < t.len() && is_title_row(before[k], #[trigger] t[i]);
                assert(titles[i] == t[i]);
            } else {
                assert(is_title_row(r[k], titles[n]));
                if has_row(rows, r[k].id) {
                    let j = choose|j: int| 0 <= j < rows.len() && (#[trigger] rows[j]).id == r[k].id;
                    assert(before[j].id == m.identity_id@);
                }
            }
        }
        assert forall|i: int| 0 <= i < titles.len() implies has_row(
            r,
            (#[trigger] titles[i]).identity_id@,
        ) by {
            if i < n {
                assert(t[i] == titles[i]);
                let k = choose|k: int|
                    0 <= k < before.len() && (#[trigger] before[k]).id == t[i].identity_id@;
                assert(r[k].id == titles[i].identity_id@);
            } else if !session::listed(before, m.identity_id@) {
                assert(r[before.len() as int].id == m.identity_id@);
            }
        }
    }
}

/// The Steam games stand under their app ids, each once.
pub open spec fn walks(ids: Seq<u32>, rules: resolver::Rules) -> bool {
    &&& ids.no_duplicates()
    &&& forall|i: int| 0 <= i < ids.len() ==> rules.games[#[trigger] ids[i]].app_id == ids[i]
}

/// What a row says of its game: whether it is tracked, its title, and where it comes
/// from.
pub open spec fn row_tells(
    ids: Seq<u32>,
    rules: resolver::Rules,
    titles: Seq<IgnoredIdentity>,
    g: identity::TrackableView,
) -> bool {
    let renamed = !g.tracking_enabled && keyed::lookup(titles, g.id) is Some;
    &&& is_known(ids, rules, g.id) ==> g.tracking_enabled == !keyed::has_key(rules.ignored, g.id)
    &&& !is_known(ids, rules, g.id) ==> !g.tracking_enabled && from_title(titles, g.id) && g.source
        == "ignored"@
    &&& renamed ==> g.title == keyed::lookup(titles, g.id)->0.title@
    &&& from_manual(rules.manual, g.id) ==> {
        &&& g.source == "manual"@
        &&& !renamed ==> exists|i: int|
            {
                &&& 0 <= i < rules.manual.len()
                &&& resolver::manual_id(#[trigger] rules.manual[i]) == g.id
                &&& rules.manual[i].title == g.title
                &&& forall|j: int|
                    i < j < rules.manual.len() ==> resolver::manual_id(
                        #[trigger] rules.manual[j],
                    ) != g.id
            }
    }
    &&& from_steam(ids, rules, g.id) ==> exists|i: int|
        {
            &&& 0 <= i < ids.len()
            &&& g.id == steam_library::steam_id(#[trigger] ids[i])
            &&& g.steam_app_id == Some(ids[i])
            &&& !from_manual(rules.manual, g.id) ==> g.source == "steam"@
            &&& !from_manual(rules.manual, g.id) && !renamed ==> g.title
                == rules.games[ids[i]].title@
        }
    &&& from_mapping(rules.mappings, g.id) && !from_steam(ids, rules, g.id) && !from_manual(
        rules.manual,
        g.id,
    ) ==> {
        &&& g.source == "user"@
        &&& !renamed ==> exists|i: int|
            {
                &&& 0 <= i < rules.mappings.len()
                &&& (#[trigger] rules.mappings[i]).identity_id@ == g.id
                &&& rules.mappings[i].title@ == g.title
            }
    }
}

proof fn lemma_unsorted_tells(
    ids: Seq<u32>,
    rules: resolver::Rules,
    titles: Seq<IgnoredIdentity>,
    k: int,
)
    requires
        walks(ids, rules),
        0 <= k < session::unsorted_games(ids, rules, titles).len(),
    ensures
        row_tells(ids, rules, titles, session::unsorted_games(ids, rules, titles)[k]),
{
    let steam = session::steam_rows(ids, rules.games, rules.ignored);
    let mapped = session::with_mappings(steam, rules.mappings, rules.ignored);
    let manual = session::with_manuals(mapped, rules.manual, rules.ignored);
    let all = session::with_ignored(manual, titles);
    let g = session::unsorted_games(ids, rules, titles)[k];
    assert(g == session::retitled(all[k], titles));
    lemma_mapped_distinct(ids, rules);
    lemma_mappings(steam, rules.mappings, rules.ignored);
    lemma_manuals(mapped, rules.manual, rules.ignored);
    lemma_titles(manual, titles);
    let row = all[k];
    assert(g.id == row.id && g.tracking_enabled == row.tracking_enabled && g.source == row.source
        && g.steam_app_id == row.steam_app_id);
    if k >= manual.len() {
        assert(!has_row(manual, row.id));
        if from_steam(ids, rules, row.id) {
            let i = choose|i: int|
                0 <= i < ids.len() && row.id == steam_library::steam_id(
                    rules.games[#[trigger] ids[i]].app_id,
                );
            assert(steam[i].id == row.id);
            assert(manual[i].id == mapped[i].id);
        }
        if from_mapping(rules.mappings, row.id) {
            let i = choose|i: int|
                0 <= i < rules.mappings.len() && (#[trigger] rules.mappings[i]).identity_id@
                    == row.id;
            assert(has_row(mapped, rules.mappings[i].identity_id@));
            let j = choose|j: int| 0 <= j < mapped.len() && (#[trigger] mapped[j]).id == row.id;
            assert(manual[j].id == mapped[j].id);
        }
        if from_manual(rules.manual, row.id) {
            let i = choose|i: int|
                0 <= i < rules.manual.len() && resolver::manual_id(#[trigger] rules.manual[i])
                    == row.id;
            assert(has_row(manual, resolver::manual_id(rules.manual[i])));
        }
    } else {
        assert(row == manual[k]);
        if from_manual(rules.manual, row.id) {
            let i = choose|i: int|
                {
                    &&& 0 <= i < rules.manual.len()
                    &&& is_manual_row(row, #[trigger] rules.manual[i], rules.ignored)
                    &&& forall|j: int|
                        i < j < rules.manual.len() ==> resolver::manual_id(
                            #[trigger] rules.manual[j],
                        ) != row.id
                };
            assert(resolver::manual_id(rules.manual[i]) == g.id);
        } else {
            assert(row == mapped[k]);
            if k >= steam.len() {
                let i = choose|i: int|
                    0 <= i < rules.mappings.len() && is_mapping_row(
                        row,
                        #[trigger] rules.mappings[i],
                        rules.ignored,
                    );
                assert(rules.mappings[i].identity_id@ == g.id);
            }
        }
        if from_steam(ids, rules, row.id) {
            let i = choose|i: int|
                0 <= i < ids.len() && row.id == steam_library::steam_id(
                    rules.games[#[trigger] ids[i]].app_id,
                );
            assert(steam[i].id == row.id);
            assert(mapped[i] == steam[i]);
            assert(manual[i].id == mapped[i].id);
            if i < k {
                assert(manual[i].id != manual[k].id);
            } else if k < i {
                assert(manual[k].id != manual[i].id);
            }
            assert(k == i);
            assert(g.id == steam_library::steam_id(ids[i]));
        } else if k < steam.len() {
            assert(mapped[k] == steam[k]);
            assert(row.id == steam_library::steam_id(rules.games[ids[k]].app_id));
        }
    }
}

proof fn lemma_mapped_distinct(ids: Seq<u32>, rules: resolver::Rules)
    requires
        walks(ids, rules),
    ensures
        session::rows_distinct(
            session::with_mappings(
                session::steam_rows(ids, rules.games, rules.ignored),
                rules.mappings,
                rules.ignored,
            ),
        ),
{
    let steam = session::steam_rows(ids, rules.games, rules.ignored);
    assert forall|i: int, j: int| 0 <= i < j < steam.len() implies (#[trigger] steam[i]).id
        != (#[trigger] steam[j]).id by {
        assert(ids[i] != ids[j]);
        if steam[i].id == steam[j].id {
            steam_library::law_steam_id_injective(ids[i], ids[j]);
        }
    }
    lemma_mapped_rows_distinct(steam, rules.mappings, rules.ignored);
}

proof fn lemma_mapped_rows_distinct(
    rows: Seq<identity::TrackableView>,
    mappings: Seq<UserMapping>,
    ignored: Seq<String>,
)
    requires
        session::rows_distinct(rows),
    ensures
        session::rows_distinct(session::with_mappings(rows, mappings, ignored)),
    decreases mappings.len(),
{
    if mappings.len() > 0 {
        lemma_mapped_rows_distinct(rows, mappings.drop_last(), ignored);
        let before = session::with_mappings(rows, mappings.drop_last(), ignored);
        let after = session::with_mappings(rows, mappings, ignored);
        if !session::listed(before, mappings.last().identity_id@) {
            session::lemma_push_row(before, after[before.len() as int]);
            assert(after == before.push(after[before.len() as int]));
        }
    }
}

/// Each row tells whether its game is tracked, under which title, and where it comes
/// from. A game that Steam has installed, or that the user has mapped or entered, is
/// shown as tracked exactly where it is not turned off; any other game in the list
/// was turned off. A game that is not tracked has the title under which it was
/// turned off, if there is one. Else a game that the user has entered has the
/// title that was entered last; a Steam game has its own, and a mapped one that of
/// a mapping.
pub proof fn law_rows_tell(
    ids: Seq<u32>,
    rules: resolver::Rules,
    titles: Seq<IgnoredIdentity>,
    k: int,
)
    requires
        walks(ids, rules),
        0 <= k < session::trackable_games(ids, rules, titles).len(),
    ensures
        row_tells(ids, rules, titles, session::trackable_games(ids, rules, titles)[k]),
{
    broadcast use vstd::seq_lib::group_to_multiset_ensures;

    let s = session::unsorted_games(ids, rules, titles);
    let le = |a: identity::TrackableView, b: identity::TrackableView| session::by_title(a, b);
    let r = session::trackable_games(ids, rules, titles);
    order::law_sorted_by_items(s, le);
    assert(r.to_multiset().count(r[k]) > 0);
    assert(s.contains(r[k]));
    let m = choose|m: int| 0 <= m < s.len() && s[m] == r[k];
    lemma_unsorted_tells(ids, rules, titles, m);
}

/// A game that Steam has installed, or that the user has mapped or entered, is shown
/// as tracked exactly where it is not turned off.
pub proof fn law_flag_is_exact(
    ids: Seq<u32>,
    rules: resolver::Rules,
    titles: Seq<IgnoredIdentity>,
    k: int,
)
    requires
        walks(ids, rules),
        0 <= k < session::trackable_games(ids, rules, titles).len(),
        is_known(ids, rules, session::trackable_games(ids, rules, titles)[k].id),
    ensures
        ({
            let g = session::trackable_games(ids, rules, titles)[k];
            g.tracking_enabled <==> !keyed::has_key(rules.ignored, g.id)
        }),
{
    law_rows_tell(ids, rules, titles, k);
}

/// Every game that Steam has installed, that the user has mapped or entered, or that
/// was turned off, is listed.
pub proof fn law_every_game_is_listed(
    ids: Seq<u32>,
    rules: resolver::Rules,
    titles: Seq<IgnoredIdentity>,
    id: Seq<char>,
)
    requires
        walks(ids, rules),
        is_known(ids, rules, id) || from_title(titles, id),
    ensures
        has_row(session::trackable_games(ids, rules, titles), id),
{
    broadcast use vstd::seq_lib::group_to_multiset_ensures;

    let steam = session::steam_rows(ids, rules.games, rules.ignored);
    let mapped = session::with_mappings(steam, rules.mappings, rules.ignored);
    let manual = session::with_manuals(mapped, rules.manual, rules.ignored);
    let all = session::with_ignored(manual, titles);
    let s = session::unsorted_games(ids, rules, titles);
    lemma_mapped_distinct(ids, rules);
    lemma_mappings(steam, rules.mappings, rules.ignored);
    lemma_manuals(mapped, rules.manual, rules.ignored);
    lemma_titles(manual, titles);
    let k = if from_steam(ids, rules, id) {
        let i = choose|i: int|
            0 <= i < ids.len() && id == steam_library::steam_id(
                rules.games[#[trigger] ids[i]].app_id,
            );
        assert(steam[i].id == id);
        assert(mapped[i] == steam[i]);
        assert(manual[i].id == mapped[i].id);
        assert(all[i] == manual[i]);
        i
    } else if from_mapping(rules.mappings, id) {
        let i = choose|i: int|
            0 <= i < rules.mappings.len() && (#[trigger] rules.mappings[i]).identity_id@ == id;
        assert(has_row(mapped, rules.mappings[i].identity_id@));
        let j = choose|j: int| 0 <= j < mapped.len() && (#[trigger] mapped[j]).id == id;
        assert(manual[j].id == mapped[j].id);
        assert(all[j] == manual[j]);
        j
    } else if from_manual(rules.manual, id) {
        let i = choose|i: int|
            0 <= i < rules.manual.len() && resolver::manual_id(#[trigger] rules.manual[i]) == id;
        assert(has_row(manual, resolver::manual_id(rules.manual[i])));
        let j = choose|j: int| 0 <= j < manual.len() && (#[trigger] manual[j]).id == id;
        assert(all[j] == manual[j]);
        j
    } else {
        let i = choose|i: int|
            0 <= i < titles.len() && (#[trigger] titles[i]).identity_id@ == id;
        assert(has_row(all, titles[i].identity_id@));
        choose|j: int| 0 <= j < all.len() && (#[trigger] all[j]).id == id
    };
    assert(all[k].id == id);
    assert(s[k] == session::retitled(all[k], titles));
    assert(s[k].id == id);
    let le = |a: identity::TrackableView, b: identity::TrackableView| session::by_title(a, b);
    let r = session::trackable_games(ids, rules, titles);
    order::law_sorted_by_items(s, le);
    assert(s.to_multiset().count(s[k]) > 0);
    assert(r.contains(s[k]));
    let m = choose|m: int| 0 <= m < r.len() && r[m] == s[k];
    assert(r[m].id == id);
}

} // verus!
