//! What holds of the two catalogs and of the denied processes.

use vstd::prelude::*;

use super::catalog;
use super::catalog::CatalogEntry;
use super::deny;
use super::detectable;
use super::detectable::{DetectableEntry, DetectableMeta, DetectableSku, RefreshEvent, RefreshStep};
use super::Confidence;
use crate::identity;
use crate::number;
use crate::search;
use crate::split;
use crate::text;
use crate::text::CharSet;

verus! {

// ---------------------------------------------------------------------------
// The user's own catalog
// ---------------------------------------------------------------------------

/// The `x`-th executable of the entry is a game for this system, and the process
/// has its name, with or without `.exe`.
pub open spec fn has_its_name(
    e: CatalogEntry,
    x: int,
    p: identity::ProcessView,
    os: Seq<char>,
) -> bool {
    &&& 0 <= x < e.executables@.len()
    &&& e.executables@[x].os@ == os
    &&& !e.executables@[x].is_launcher
    &&& text::same_letters(p.name, e.executables@[x].name@) || text::same_letters(
        p.name,
        e.executables@[x].name@ + ".exe"@,
    )
}

/// The arguments of the entry stand in the command line.
pub open spec fn has_its_arguments(e: CatalogEntry, p: identity::ProcessView) -> bool {
    &&& e.arguments is Some
    &&& match p.cmdline {
        Some(cmd) => text::contains(text::lower(cmd), text::lower(e.arguments->0@)),
        None => e.arguments->0@.len() == 0,
    }
}

/// The `h`-th hint of the entry stands in the path.
pub open spec fn has_its_hint(e: CatalogEntry, h: int, p: identity::ProcessView) -> bool {
    &&& 0 <= h < e.path_hints@.len()
    &&& match p.exe_path {
        Some(path) => text::contains(text::lower(path), text::lower(e.path_hints@[h]@)),
        None => e.path_hints@[h]@.len() == 0,
    }
}

/// The entry fits the process by more than its name.
pub open spec fn fits_surely(e: CatalogEntry, p: identity::ProcessView, os: Seq<char>) -> bool {
    &&& exists|x: int| #[trigger] has_its_name(e, x, p, os)
    &&& if e.arguments is Some {
        has_its_arguments(e, p)
    } else {
        exists|h: int| #[trigger] has_its_hint(e, h, p)
    }
}

/// The entry fits the process by its name alone.
pub open spec fn fits_by_name(e: CatalogEntry, p: identity::ProcessView, os: Seq<char>) -> bool {
    &&& exists|x: int| #[trigger] has_its_name(e, x, p, os)
    &&& e.arguments is None
    &&& forall|h: int| !#[trigger] has_its_hint(e, h, p)
}

/// The identity is that of the entry, for a process of this name.
pub open spec fn tells_entry(
    m: identity::IdentityView,
    e: CatalogEntry,
    p: identity::ProcessView,
) -> bool {
    &&& m.id == "catalog:"@ + e.id@
    &&& m.title == e.name@
    &&& m.exe == Some(p.name)
    &&& m.source == "catalog"@
    &&& m.steam_app_id is None
    &&& m.fingerprint is None
}

/// Nothing stands in an empty text but an empty text.
proof fn lemma_contains_empty(s: Seq<char>, p: Seq<char>)
    requires
        s.len() == 0,
    ensures
        text::contains(s, p) == (p.len() == 0),
{
    if p.len() == 0 {
        assert(s.subrange(0, 0) == p);
        assert(text::occurs_at(s, p, 0));
    }
}

proof fn lemma_lower_exe(name: Seq<char>)
    ensures
        text::lower(name + ".exe"@) == text::lower(name) + ".exe"@,
{
    reveal_strlit(".exe");
}

proof fn lemma_fits(e: CatalogEntry, p: identity::ProcessView, os: Seq<char>)
    ensures
        catalog::entry_confidence(e, p, os) == Some(Confidence::Medium) <==> fits_surely(e, p, os),
        catalog::entry_confidence(e, p, os) == Some(Confidence::Low) <==> fits_by_name(e, p, os),
{
    assert forall|x: int| 0 <= x < e.executables@.len() implies (catalog::runs(
        #[trigger] e.executables@[x],
        p.name,
        os,
    ) <==> has_its_name(e, x, p, os)) by {
        lemma_lower_exe(e.executables@[x].name@);
    }
    if exists|x: int| #[trigger] has_its_name(e, x, p, os) {
        let x = choose|x: int| #[trigger] has_its_name(e, x, p, os);
        assert(catalog::runs(e.executables@[x], p.name, os));
    }
    if exists|i: int|
        0 <= i < e.executables@.len() && catalog::runs(#[trigger] e.executables@[i], p.name, os) {
        let i = choose|i: int|
            0 <= i < e.executables@.len() && catalog::runs(
                #[trigger] e.executables@[i],
                p.name,
                os,
            );
        assert(has_its_name(e, i, p, os));
    }
    let cmd = text::lower(catalog::text_of(p.cmdline));
    if e.arguments is Some {
        lemma_contains_empty(Seq::empty(), text::lower(e.arguments->0@));
        assert(text::lower(Seq::<char>::empty()) == Seq::<char>::empty());
        assert(text::contains(cmd, text::lower(e.arguments->0@)) == has_its_arguments(e, p));
    }
    let path = catalog::text_of(p.exe_path);
    assert forall|h: int| 0 <= h < e.path_hints@.len() implies (text::contains(
        text::lower(path),
        text::lower(#[trigger] e.path_hints@[h]@),
    ) <==> has_its_hint(e, h, p)) by {
        lemma_contains_empty(Seq::empty(), text::lower(e.path_hints@[h]@));
        assert(text::lower(Seq::<char>::empty()) == Seq::<char>::empty());
    }
    if exists|h: int| #[trigger] has_its_hint(e, h, p) {
        let h = choose|h: int| #[trigger] has_its_hint(e, h, p);
        assert(text::contains(text::lower(path), text::lower(e.path_hints@[h]@)));
    }
    if catalog::hinted(e.path_hints@, path) {
        let i = choose|i: int|
            0 <= i < e.path_hints@.len() && text::contains(
                text::lower(path),
                text::lower(#[trigger] e.path_hints@[i]@),
            );
        assert(has_its_hint(e, i, p));
    }
}

/// An entry that fits by more than its name is matched with medium confidence, if
/// it is the first such entry, whatever fits by its name alone.
pub proof fn law_sure_entry_wins(
    entries: Seq<CatalogEntry>,
    p: identity::ProcessView,
    os: Seq<char>,
    k: int,
)
    requires
        0 <= k < entries.len(),
        fits_surely(entries[k], p, os),
        forall|j: int| 0 <= j < k ==> !fits_surely(#[trigger] entries[j], p, os),
    ensures
        catalog::catalog_match(entries, p, os) is Some,
        tells_entry(catalog::catalog_match(entries, p, os)->0, entries[k], p),
        catalog::catalog_match(entries, p, os)->0.confidence == Confidence::Medium,
{
    let f = |e: CatalogEntry| catalog::entry_confidence(e, p, os) == Some(Confidence::Medium);
    lemma_fits(entries[k], p, os);
    assert forall|j: int| 0 <= j < k implies !f(#[trigger] entries[j]) by {
        lemma_fits(entries[j], p, os);
    }
    search::lemma_first_is(entries, f, k);
}

/// Where no entry fits by more than its name, the first that fits by its name is
/// matched, with low confidence.
pub proof fn law_bare_entry_is_unsure(
    entries: Seq<CatalogEntry>,
    p: identity::ProcessView,
    os: Seq<char>,
    k: int,
)
    requires
        0 <= k < entries.len(),
        fits_by_name(entries[k], p, os),
        forall|j: int| 0 <= j < k ==> !fits_by_name(#[trigger] entries[j], p, os),
        forall|j: int| 0 <= j < entries.len() ==> !fits_surely(#[trigger] entries[j], p, os),
    ensures
        catalog::catalog_match(entries, p, os) is Some,
        tells_entry(catalog::catalog_match(entries, p, os)->0, entries[k], p),
        catalog::catalog_match(entries, p, os)->0.confidence == Confidence::Low,
{
    let sure = |e: CatalogEntry| catalog::entry_confidence(e, p, os) == Some(Confidence::Medium);
    let f = |e: CatalogEntry| catalog::entry_confidence(e, p, os) == Some(Confidence::Low);
    assert forall|j: int| 0 <= j < entries.len() implies !sure(#[trigger] entries[j]) by {
        lemma_fits(entries[j], p, os);
    }
    search::lemma_first_where(entries, sure);
    lemma_fits(entries[k], p, os);
    assert forall|j: int| 0 <= j < k implies !f(#[trigger] entries[j]) by {
        lemma_fits(entries[j], p, os);
    }
    search::lemma_first_is(entries, f, k);
}

/// A process that no entry fits is not matched.
pub proof fn law_unlisted_is_not_matched(
    entries: Seq<CatalogEntry>,
    p: identity::ProcessView,
    os: Seq<char>,
)
    requires
        forall|j: int|
            0 <= j < entries.len() ==> !fits_surely(#[trigger] entries[j], p, os) && !fits_by_name(
                entries[j],
                p,
                os,
            ),
    ensures
        catalog::catalog_match(entries, p, os) is None,
{
    let sure = |e: CatalogEntry| catalog::entry_confidence(e, p, os) == Some(Confidence::Medium);
    let f = |e: CatalogEntry| catalog::entry_confidence(e, p, os) == Some(Confidence::Low);
    assert forall|j: int| 0 <= j < entries.len() implies !sure(#[trigger] entries[j]) && !f(
        entries[j],
    ) by {
        lemma_fits(entries[j], p, os);
    }
    search::lemma_first_where(entries, sure);
    search::lemma_first_where(entries, f);
}

// ---------------------------------------------------------------------------
// The Discord catalog
// ---------------------------------------------------------------------------

/// A path as it is compared has no backslash and no capital letter, and no white
/// space around it. Two paths are compared as the same where they differ in the
/// case of letters or in the kind of slashes only.
pub proof fn law_normal_path(a: Seq<char>, b: Seq<char>)
    ensures
        forall|i: int|
            0 <= i < detectable::normal_path(a).len() ==> #[trigger] detectable::normal_path(a)[i]
                != '\\' && !('A' <= detectable::normal_path(a)[i] <= 'Z'),
        text::same_letters(
            text::swap_char(text::trim(a, CharSet::White), '\\', '/'),
            text::swap_char(text::trim(b, CharSet::White), '\\', '/'),
        ) <==> detectable::normal_path(a) == detectable::normal_path(b),
        detectable::normal_path(a).len() == text::trim(a, CharSet::White).len(),
{
}

/// The name at the end of a path has no slash, and what stands before it ends
/// with one.
pub proof fn law_name_at_the_end(path: Seq<char>)
    ensures
        text::ends_with(path, detectable::base_name(path)),
        forall|i: int|
            0 <= i < detectable::base_name(path).len() ==> #[trigger] detectable::base_name(path)[i]
                != '/',
        detectable::base_name(path).len() < path.len() ==> path[path.len()
            - detectable::base_name(path).len() - 1] == '/',
{
    split::lemma_last_in(path, CharSet::Slash);
    let b = detectable::base_name(path);
    assert(path.subrange(path.len() - b.len(), path.len() as int) == b);
}

/// The `x`-th executable of the `k`-th game is for this system, is no launcher, and
/// fits the process: by its name alone where it tells no directory, else by the
/// whole end of the path.
pub open spec fn is_exe_of(
    raw: Seq<DetectableEntry>,
    os: Seq<char>,
    k: int,
    x: int,
    p: identity::ProcessView,
) -> bool {
    &&& 0 <= k < raw.len()
    &&& 0 <= x < raw[k].executables@.len()
    &&& raw[k].executables@[x].os@ == os
    &&& !raw[k].executables@[x].is_launcher
    &&& exe_fits(detectable::normal_path(raw[k].executables@[x].name@), p)
}

/// The process has this name, or its path ends with it at a directory.
pub open spec fn exe_fits(wanted: Seq<char>, p: identity::ProcessView) -> bool {
    &&& wanted.len() > 0
    &&& if text::contains(wanted, "/"@) {
        &&& text::lower(p.name) == detectable::base_name(wanted)
        &&& p.exe_path is Some
        &&& ends_at_directory(detectable::normal_path(p.exe_path->0), wanted)
    } else {
        text::lower(p.name) == wanted
    }
}

/// The path is `end`, or ends with it behind a slash.
pub open spec fn ends_at_directory(path: Seq<char>, end: Seq<char>) -> bool {
    path == end || text::ends_with(path, "/"@ + end)
}

proof fn lemma_no_slash_base(s: Seq<char>)
    requires
        !text::contains(s, "/"@),
    ensures
        detectable::base_name(s) == s,
{
    reveal_strlit("/");
    split::lemma_last_in(s, CharSet::Slash);
    if let Some(i) = split::last_in(s, CharSet::Slash) {
        assert(s.subrange(i, i + 1) == "/"@);
        assert(text::occurs_at(s, "/"@, i));
    }
}

proof fn lemma_exe_fits(wanted: Seq<char>, p: identity::ProcessView)
    requires
        wanted.len() > 0,
    ensures
        exe_fits(wanted, p) == detectable::pattern_fits(
            wanted,
            text::lower(p.name),
            detectable::process_path(p),
        ),
{
    if !text::contains(wanted, "/"@) {
        lemma_no_slash_base(wanted);
    } else {
        reveal_strlit("/");
    }
}

/// A pattern of the catalog is that of the `x`-th executable of its game.
pub open spec fn pattern_from(
    raw: Seq<DetectableEntry>,
    os: Seq<char>,
    pat: detectable::PatternView,
    x: int,
) -> bool {
    &&& 0 <= pat.entry < raw.len()
    &&& 0 <= x < raw[pat.entry].executables@.len()
    &&& raw[pat.entry].executables@[x].os@ == os
    &&& !raw[pat.entry].executables@[x].is_launcher
    &&& pat.pattern == detectable::normal_path(raw[pat.entry].executables@[x].name@)
    &&& pat.pattern.len() > 0
}

proof fn lemma_exe_from(
    exes: Seq<detectable::DetectableExecutable>,
    os: Seq<char>,
    entry: int,
    n: int,
) -> (x: int)
    requires
        0 <= n < detectable::exe_patterns(exes, os, entry).len(),
    ensures
        0 <= x < exes.len(),
        exes[x].os@ == os,
        !exes[x].is_launcher,
        detectable::exe_patterns(exes, os, entry)[n].entry == entry,
        detectable::exe_patterns(exes, os, entry)[n].pattern == detectable::normal_path(
            exes[x].name@,
        ),
        detectable::exe_patterns(exes, os, entry)[n].pattern.len() > 0,
    decreases exes.len(),
{
    let before = detectable::exe_patterns(exes.drop_last(), os, entry);
    if n < before.len() {
        lemma_exe_from(exes.drop_last(), os, entry, n)
    } else {
        exes.len() - 1
    }
}

proof fn lemma_pattern_from(raw: Seq<DetectableEntry>, os: Seq<char>, n: int) -> (x: int)
    requires
        0 <= n < detectable::all_patterns(raw, os).len(),
    ensures
        pattern_from(raw, os, detectable::all_patterns(raw, os)[n], x),
    decreases raw.len(),
{
    let before = detectable::all_patterns(raw.drop_last(), os);
    if n < before.len() {
        lemma_pattern_from(raw.drop_last(), os, n)
    } else {
        lemma_exe_from(raw.last().executables@, os, raw.len() - 1, n - before.len())
    }
}

proof fn lemma_exe_listed(
    exes: Seq<detectable::DetectableExecutable>,
    os: Seq<char>,
    entry: int,
    x: int,
) -> (n: int)
    requires
        0 <= x < exes.len(),
        exes[x].os@ == os,
        !exes[x].is_launcher,
        detectable::normal_path(exes[x].name@).len() > 0,
    ensures
        0 <= n < detectable::exe_patterns(exes, os, entry).len(),
        detectable::exe_patterns(exes, os, entry)[n].entry == entry,
        detectable::exe_patterns(exes, os, entry)[n].pattern == detectable::normal_path(
            exes[x].name@,
        ),
    decreases exes.len(),
{
    if x < exes.len() - 1 {
        lemma_exe_listed(exes.drop_last(), os, entry, x)
    } else {
        detectable::exe_patterns(exes.drop_last(), os, entry).len() as int
    }
}

proof fn lemma_pattern_listed(raw: Seq<DetectableEntry>, os: Seq<char>, k: int, x: int) -> (n: int)
    requires
        0 <= k < raw.len(),
        0 <= x < raw[k].executables@.len(),
        raw[k].executables@[x].os@ == os,
        !raw[k].executables@[x].is_launcher,
        detectable::normal_path(raw[k].executables@[x].name@).len() > 0,
    ensures
        0 <= n < detectable::all_patterns(raw, os).len(),
        detectable::all_patterns(raw, os)[n].entry == k,
        detectable::all_patterns(raw, os)[n].pattern == detectable::normal_path(
            raw[k].executables@[x].name@,
        ),
    decreases raw.len(),
{
    if k < raw.len() - 1 {
        lemma_pattern_listed(raw.drop_last(), os, k, x)
    } else {
        detectable::all_patterns(raw.drop_last(), os).len() + lemma_exe_listed(
            raw[k].executables@,
            os,
            k,
            x,
        )
    }
}

/// The identity is that of the listed game, for a process of this name.
pub open spec fn tells_listed(
    m: identity::IdentityView,
    e: DetectableEntry,
    p: identity::ProcessView,
) -> bool {
    &&& m.id == "discord:"@ + e.id@
    &&& m.title == e.name@
    &&& m.exe == Some(p.name)
    &&& m.source == "discord"@
    &&& m.fingerprint is None
    &&& m.steam_app_id == detectable::steam_sku(e.third_party_skus@)
}

/// A process that a listed executable fits is matched.
pub proof fn law_listed_game_is_found(
    raw: Seq<DetectableEntry>,
    os: Seq<char>,
    p: identity::ProcessView,
    k: int,
    x: int,
)
    requires
        is_exe_of(raw, os, k, x, p),
    ensures
        detectable::detectable_match(detectable::catalog_of(raw, os), p) is Some,
{
    let c = detectable::catalog_of(raw, os);
    let n = lemma_pattern_listed(raw, os, k, x);
    lemma_exe_fits(c.patterns[n].pattern, p);
    search::lemma_first_where(c.patterns, |pat: detectable::PatternView| detectable::fits(pat, p));
}

/// A match tells a listed game with an executable that fits the process.
pub proof fn law_match_is_listed(
    raw: Seq<DetectableEntry>,
    os: Seq<char>,
    p: identity::ProcessView,
)
    requires
        detectable::detectable_match(detectable::catalog_of(raw, os), p) is Some,
    ensures
        exists|k: int, x: int| #[trigger]
            is_exe_of(raw, os, k, x, p) && tells_listed(
                detectable::detectable_match(detectable::catalog_of(raw, os), p)->0,
                raw[k],
                p,
            ),
{
    let c = detectable::catalog_of(raw, os);
    let f = |pat: detectable::PatternView| detectable::fits(pat, p);
    search::lemma_first_where(c.patterns, f);
    let i = search::first_where(c.patterns, f)->0;
    let x = lemma_pattern_from(raw, os, i);
    let k = c.patterns[i].entry;
    lemma_exe_fits(c.patterns[i].pattern, p);
    assert(is_exe_of(raw, os, k, x, p));
}

/// Patterns stand in the order of their games.
proof fn lemma_patterns_in_order(raw: Seq<DetectableEntry>, os: Seq<char>, m: int, n: int)
    requires
        0 <= m <= n < detectable::all_patterns(raw, os).len(),
    ensures
        detectable::all_patterns(raw, os)[m].entry <= detectable::all_patterns(raw, os)[n].entry,
    decreases raw.len(),
{
    let before = detectable::all_patterns(raw.drop_last(), os);
    if n < before.len() {
        lemma_patterns_in_order(raw.drop_last(), os, m, n);
    } else {
        let x = lemma_exe_from(raw.last().executables@, os, raw.len() - 1, n - before.len());
        let y = lemma_pattern_from(raw, os, m);
    }
}

/// Of the games with executables that fit, the one that is listed first is told.
pub proof fn law_first_listed_counts(
    raw: Seq<DetectableEntry>,
    os: Seq<char>,
    p: identity::ProcessView,
    k: int,
    x: int,
)
    requires
        is_exe_of(raw, os, k, x, p),
        forall|j: int, y: int| j < k ==> !#[trigger] is_exe_of(raw, os, j, y, p),
    ensures
        detectable::detectable_match(detectable::catalog_of(raw, os), p) is Some,
        tells_listed(
            detectable::detectable_match(detectable::catalog_of(raw, os), p)->0,
            raw[k],
            p,
        ),
{
    let c = detectable::catalog_of(raw, os);
    let f = |pat: detectable::PatternView| detectable::fits(pat, p);
    let n = lemma_pattern_listed(raw, os, k, x);
    lemma_exe_fits(c.patterns[n].pattern, p);
    search::lemma_first_where(c.patterns, f);
    let i = search::first_where(c.patterns, f)->0;
    let y = lemma_pattern_from(raw, os, i);
    lemma_exe_fits(c.patterns[i].pattern, p);
    assert(is_exe_of(raw, os, c.patterns[i].entry, y, p));
    assert(f(c.patterns[n]));
    lemma_patterns_in_order(raw, os, i, n);
}

/// A match has medium confidence where only one game has executables that fit,
/// and low confidence where another one has such an executable too.
pub proof fn law_shared_name_is_unsure(
    raw: Seq<DetectableEntry>,
    os: Seq<char>,
    p: identity::ProcessView,
    k: int,
    x: int,
)
    requires
        is_exe_of(raw, os, k, x, p),
    ensures
        ({
            let m = detectable::detectable_match(detectable::catalog_of(raw, os), p);
            &&& m->0.confidence == Confidence::Medium || m->0.confidence == Confidence::Low
            &&& m->0.confidence == Confidence::Medium <==> forall|j: int, y: int| #[trigger]
                is_exe_of(raw, os, j, y, p) ==> j == k
        }),
{
    let c = detectable::catalog_of(raw, os);
    let f = |pat: detectable::PatternView| detectable::fits(pat, p);
    let n = lemma_pattern_listed(raw, os, k, x);
    lemma_exe_fits(c.patterns[n].pattern, p);
    search::lemma_first_where(c.patterns, f);
    let i = search::first_where(c.patterns, f)->0;
    let entry = c.patterns[i].entry;
    let one = forall|j: int, y: int| #[trigger] is_exe_of(raw, os, j, y, p) ==> j == k;
    if detectable::only_entry(c.patterns, p, entry) {
        assert(detectable::fits(c.patterns[n], p));
        assert(entry == k);
        assert forall|j: int, y: int| #[trigger] is_exe_of(raw, os, j, y, p) implies j == k by {
            let m = lemma_pattern_listed(raw, os, j, y);
            lemma_exe_fits(c.patterns[m].pattern, p);
            assert(detectable::fits(c.patterns[m], p));
        }
    } else if one {
        assert forall|m: int|
            0 <= m < c.patterns.len() && detectable::fits(
                #[trigger] c.patterns[m],
                p,
            ) implies c.patterns[m].entry == entry by {
            let y = lemma_pattern_from(raw, os, m);
            lemma_exe_fits(c.patterns[m].pattern, p);
            assert(is_exe_of(raw, os, c.patterns[m].entry, y, p));
            let z = lemma_pattern_from(raw, os, i);
            lemma_exe_fits(c.patterns[i].pattern, p);
            assert(is_exe_of(raw, os, entry, z, p));
        }
    }
}

/// The article is sold at Steam.
pub open spec fn sold_at_steam(s: DetectableSku) -> bool {
    match s.distributor {
        Some(d) => text::same_letters(d@, "steam"@),
        None => false,
    }
}

/// The app id of a game is the number of its first article at Steam; a game without
/// one, or whose number cannot be read, has none.
pub proof fn law_app_id_is_the_first(skus: Seq<DetectableSku>, k: int)
    requires
        0 <= k <= skus.len(),
        forall|j: int| 0 <= j < k ==> !sold_at_steam(#[trigger] skus[j]),
        k < skus.len() ==> sold_at_steam(skus[k]),
    ensures
        k == skus.len() ==> detectable::steam_sku(skus) is None,
        k < skus.len() && skus[k].id is None ==> detectable::steam_sku(skus) is None,
        k < skus.len() && skus[k].id is Some ==> detectable::steam_sku(skus) == number::parse_u32(
            skus[k].id->0@,
        ),
{
    let f = |s: DetectableSku| detectable::is_steam(s);
    assert(forall|j: int| 0 <= j < k ==> !f(#[trigger] skus[j]));
    if k < skus.len() {
        search::lemma_first_is(skus, f, k);
    } else {
        search::lemma_first_where(skus, f);
    }
}

/// What is on disk is read again only for the address that it came from, and only
/// until the age limit; what has no games, or was never there, is downloaded.
pub proof fn law_stale_is_downloaded(
    meta: DetectableMeta,
    url: Seq<char>,
    max_age: u64,
    now: u64,
    games: usize,
)
    ensures
        next(RefreshEvent::MetaRead(None), url, max_age, now) == RefreshStep::Download,
        meta.url@ != url ==> next(RefreshEvent::MetaRead(Some(meta)), url, max_age, now)
            == RefreshStep::Download,
        now >= meta.fetched_at + max_age ==> next(
            RefreshEvent::MetaRead(Some(meta)),
            url,
            max_age,
            now,
        ) == RefreshStep::Download,
        meta.url@ == url && now < meta.fetched_at + max_age && max_age > 0 ==> next(
            RefreshEvent::MetaRead(Some(meta)),
            url,
            max_age,
            now,
        ) == RefreshStep::ReadCache,
        next(RefreshEvent::CacheRead(games), url, max_age, now) == (if games == 0 {
            RefreshStep::Download
        } else {
            RefreshStep::UseCache
        }),
{
}

/// A download is used where it could be read as a catalog; where it failed or could
/// not be read, what is on disk is used.
pub proof fn law_failed_download_keeps_the_old(
    parsed: Option<bool>,
    url: Seq<char>,
    max_age: u64,
    now: u64,
)
    ensures
        match parsed {
            Some(good) => next(RefreshEvent::Downloaded(parsed), url, max_age, now) == (if good {
                RefreshStep::UseDownloaded
            } else {
                RefreshStep::UseCache
            }),
            None => next(RefreshEvent::Downloaded(parsed), url, max_age, now)
                == RefreshStep::UseCache,
        },
{
}

/// The next step while the catalog is made ready.
pub open spec fn next(event: RefreshEvent, url: Seq<char>, max_age: u64, now: u64) -> RefreshStep {
    detectable::next_step(event, url, max_age, now)
}

// ---------------------------------------------------------------------------
// Denied processes
// ---------------------------------------------------------------------------

/// The launcher of Steam and its helpers.
pub open spec fn of_steam(s: Seq<char>) -> bool {
    ||| s == "steam"@
    ||| s == "steamwebhelper"@
    ||| s == "gameoverlayui"@
    ||| s == "gameoverlayui64"@
    ||| s == "steamerrorreporter"@
    ||| s == "steamerrorreporter64"@
    ||| s == "steamservice"@
    ||| s == "cef_server"@
}

/// Programs that tell of crashes.
pub open spec fn of_crashes(s: Seq<char>) -> bool {
    ||| s == "crashpad_handler"@
    ||| s == "unitycrashhandler"@
    ||| s == "unitycrashhandler64"@
    ||| s == "unitycrashhandler32"@
}

/// Programs that install others.
pub open spec fn of_setup(s: Seq<char>) -> bool {
    ||| s == "vcredist_x64"@
    ||| s == "vcredist_x86"@
    ||| s == "dxsetup"@
    ||| s == "dotnet"@
    ||| s == "msiexec"@
    ||| s == "setup"@
    ||| s == "installer"@
}

/// Browsers and what shows pages in a program.
pub open spec fn of_browsers(s: Seq<char>) -> bool {
    ||| s == "msedgewebview2"@
    ||| s == "msedge"@
    ||| s == "chrome"@
    ||| s == "firefox"@
    ||| s == "qtwebengineprocess"@
    ||| s == "obs-browser-page"@
}

/// Programs that record.
pub open spec fn of_recorders(s: Seq<char>) -> bool {
    ||| s == "obs64"@
    ||| s == "obs32"@
    ||| s == "obs"@
    ||| s == "nvidia broadcast"@
    ||| s == "nvidia share"@
    ||| s == "nvcontainer"@
}

/// Programs of the system.
pub open spec fn of_system(s: Seq<char>) -> bool {
    ||| s == "explorer"@
    ||| s == "textinputhost"@
    ||| s == "applicationframehost"@
    ||| s == "searchhost"@
    ||| s == "runtimebroker"@
    ||| s == "svchost"@
    ||| s == "dllhost"@
    ||| s == "conhost"@
    ||| s == "taskmgr"@
}

/// Shells and what programs are made with.
pub open spec fn of_developers(s: Seq<char>) -> bool {
    ||| s == "powershell"@
    ||| s == "pwsh"@
    ||| s == "cmd"@
    ||| s == "code"@
    ||| s == "cursor"@
    ||| s == "node"@
    ||| s == "python"@
    ||| s == "cargo"@
    ||| s == "rustc"@
}

/// A program that is no game.
pub open spec fn no_game(s: Seq<char>) -> bool {
    ||| of_steam(s)
    ||| of_crashes(s)
    ||| of_setup(s)
    ||| of_browsers(s)
    ||| of_recorders(s)
    ||| of_system(s)
    ||| of_developers(s)
}

/// The name tells of a crash handler, of something to install, of something that
/// shows pages, or of what guards against cheats.
pub open spec fn tells_no_game(lower: Seq<char>, bare: Seq<char>) -> bool {
    ||| text::contains(bare, "crashhandler"@)
    ||| text::contains(bare, "crashreporter"@)
    ||| text::contains(bare, "webview"@)
    ||| text::starts_with(bare, "unitycrashhandler"@)
    ||| text::starts_with(bare, "vcredist"@)
    ||| text::starts_with(bare, "qtwebengine"@)
    ||| text::contains(lower, "easyanticheat"@)
    ||| text::contains(lower, "battleye"@)
    ||| text::contains(lower, "nvidia broadcast"@)
}

/// `copies` endings `.exe` behind a text.
pub open spec fn with_exe(s: Seq<char>, copies: nat) -> Seq<char>
    decreases copies,
{
    if copies == 0 {
        s
    } else {
        with_exe(s, (copies - 1) as nat) + ".exe"@
    }
}

/// Endings `.exe` make no difference to what is left without them.
pub proof fn lemma_with_exe(s: Seq<char>, copies: nat)
    ensures
        text::trim_end_text(with_exe(s, copies), ".exe"@) == text::trim_end_text(s, ".exe"@),
    decreases copies,
{
    reveal_strlit(".exe");
    if copies > 0 {
        let before = with_exe(s, (copies - 1) as nat);
        let whole = with_exe(s, copies);
        lemma_with_exe(s, (copies - 1) as nat);
        assert(whole.subrange(whole.len() - 4, whole.len() as int) == ".exe"@);
        assert(whole.take(whole.len() - 4) == before);
    }
}

/// The name without its endings is what is left when no `.exe` is left.
pub proof fn law_stem(name: Seq<char>, bare: Seq<char>, copies: nat)
    requires
        text::lower(name) == with_exe(bare, copies),
        !text::ends_with(bare, ".exe"@),
    ensures
        deny::stem(name) == bare,
{
    lemma_with_exe(bare, copies);
}

/// A process is denied just where its name, in lower case and without `.exe` behind
/// it, is that of a program that is no game, or tells that it is none; the case of
/// letters and further endings make no difference.
pub proof fn law_what_is_denied(name: Seq<char>, bare: Seq<char>, copies: nat)
    requires
        text::lower(name) == with_exe(bare, copies),
        !text::ends_with(bare, ".exe"@),
    ensures
        no_game(bare) ==> deny::denied(name),
        tells_no_game(text::lower(name), bare) ==> deny::denied(name),
        deny::denied(name) ==> no_game(bare) || no_game(text::lower(name)) || tells_no_game(
            text::lower(name),
            bare,
        ),
{
    law_stem(name, bare, copies);
}

} // verus!
