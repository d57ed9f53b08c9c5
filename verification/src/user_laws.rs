//! What holds of what the user enters, says and is shown.

use vstd::prelude::*;

use crate::db;
use crate::db::PushStatus;
use crate::identity;
use crate::identity::resolver;
use crate::identity::resolver::UserMapping;
use crate::identity::IgnoredIdentity;
use crate::keyed;
use crate::live_session;
use crate::number;
use crate::search;
use crate::session;
use crate::split;
use crate::text;
use crate::text::CharSet;
use crate::text_laws;

verus! {

// ---------------------------------------------------------------------------
// Entering a game
// ---------------------------------------------------------------------------

/// A name with neither kind of slash in it, and neither white space nor a quote at its
/// ends.
pub open spec fn plain_entry(s: Seq<char>) -> bool {
    &&& s.len() > 0
    &&& text_laws::none_in(s, CharSet::AnySlash)
    &&& !CharSet::White.has(s[0]) && !CharSet::White.has(s.last())
    &&& s[0] != '"' && s.last() != '"'
}

proof fn lemma_bare(path: Seq<char>)
    requires
        path.len() > 0,
        !CharSet::White.has(path[0]) && !CharSet::White.has(path.last()),
        path[0] != '"' && path.last() != '"',
    ensures
        resolver::bare_input(path) == path,
{
    let none = Seq::<char>::empty();
    assert(none + path + none == path);
    text_laws::law_trim(none, path, none, CharSet::White);
    text_laws::law_trim(none, path, none, CharSet::Quote);
}

/// White space and quotes around what was entered make no difference.
pub proof fn law_entered_in_quotes(before: Seq<char>, path: Seq<char>, after: Seq<char>)
    requires
        text_laws::all_in(before, CharSet::White),
        text_laws::all_in(after, CharSet::White),
        path.len() > 0,
        !CharSet::White.has(path[0]) && !CharSet::White.has(path.last()),
        path[0] != '"' && path.last() != '"',
    ensures
        resolver::exe_input(before + path + after) == resolver::exe_input(path),
        resolver::exe_input(before + (seq!['"'] + path + seq!['"']) + after)
            == resolver::exe_input(path),
{
    let none = Seq::<char>::empty();
    let quote = seq!['"'];
    let quoted = quote + path + quote;
    lemma_bare(path);
    assert(none + path + none == path);
    text_laws::law_trim(before, path, after, CharSet::White);
    text_laws::law_trim(before, quoted, after, CharSet::White);
    text_laws::law_trim(none, path, none, CharSet::White);
    text_laws::law_trim(none, path, none, CharSet::Quote);
    text_laws::law_trim(quote, path, quote, CharSet::Quote);
}

/// A file that is entered alone is the name of the executable, and there is no hint.
pub proof fn law_entered_file(file: Seq<char>)
    requires
        plain_entry(file),
    ensures
        resolver::exe_input(file) == Ok::<(Seq<char>, Option<Seq<char>>), Seq<char>>((file, None)),
{
    lemma_bare(file);
    assert(!CharSet::AnySlash.has(file[file.len() - 1]));
    split::lemma_last_in(file, CharSet::AnySlash);
}

/// Of a path the file is the name of the executable, and the directory that it lies in
/// is the hint, whichever slashes part them and whatever stands above.
pub proof fn law_entered_path(
    above: Seq<char>,
    slash: char,
    dir: Seq<char>,
    other: char,
    file: Seq<char>,
)
    requires
        above.len() > 0 ==> !CharSet::White.has(above[0]) && above[0] != '"',
        CharSet::AnySlash.has(slash),
        CharSet::AnySlash.has(other),
        plain_entry(dir),
        plain_entry(file),
    ensures
        resolver::exe_input(above.push(slash) + dir.push(other) + file) == Ok::<
            (Seq<char>, Option<Seq<char>>),
            Seq<char>,
        >((file, Some(dir))),
{
    reveal_strlit(".");
    let parent = above.push(slash) + dir;
    let path = above.push(slash) + dir.push(other) + file;
    let none = Seq::<char>::empty();
    assert(path[0] == parent[0]);
    assert(path.last() == file.last());
    assert(!CharSet::White.has(slash) && slash != '"');
    lemma_bare(path);
    assert(!CharSet::AnySlash.has(file[file.len() - 1]));
    let at = parent.len() as int;
    split::lemma_last_in(path, CharSet::AnySlash);
    assert(path[at] == other);
    assert forall|j: int| at < j < path.len() implies !CharSet::AnySlash.has(#[trigger] path[j]) by {
        assert(path[j] == file[j - at - 1]);
    }
    assert(split::last_in(path, CharSet::AnySlash) == Some(at));
    assert(path.skip(at + 1) == file);
    assert(path.take(at) == parent);
    assert(none + parent + none == parent);
    assert(parent.last() == dir.last());
    text_laws::law_trim(none, parent, none, CharSet::White);
    assert(!CharSet::AnySlash.has(dir[dir.len() - 1]));
    assert(text::trim_end(parent, CharSet::AnySlash) == parent);
    assert(parent.len() >= 2);
    split::lemma_last_in(parent, CharSet::AnySlash);
    let cut = above.len() as int;
    assert(parent[cut] == slash);
    assert forall|j: int| cut < j < parent.len() implies !CharSet::AnySlash.has(
        #[trigger] parent[j],
    ) by {
        assert(parent[j] == dir[j - cut - 1]);
    }
    assert(split::last_in(parent, CharSet::AnySlash) == Some(cut));
    assert(parent.skip(cut + 1) == dir);
}

/// A file in a directory that is entered without what is above it has the directory as its
/// hint; the directory itself, written as a dot, gives none, and neither does the root.
pub proof fn law_entered_directory(dir: Seq<char>, slash: char, file: Seq<char>)
    requires
        CharSet::AnySlash.has(slash),
        plain_entry(dir),
        plain_entry(file),
    ensures
        dir != "."@ ==> resolver::exe_input(dir.push(slash) + file) == Ok::<
            (Seq<char>, Option<Seq<char>>),
            Seq<char>,
        >((file, Some(dir))),
        dir == "."@ ==> resolver::exe_input(dir.push(slash) + file) == Ok::<
            (Seq<char>, Option<Seq<char>>),
            Seq<char>,
        >((file, None)),
        resolver::exe_input(seq![slash] + file) == Ok::<(Seq<char>, Option<Seq<char>>), Seq<char>>(
            (file, None),
        ),
{
    let none = Seq::<char>::empty();
    let path = dir.push(slash) + file;
    lemma_split_file(dir, slash, file);
    lemma_split_file(none, slash, file);
    assert(none.push(slash) + file == seq![slash] + file);
    assert(none + dir + none == dir);
    text_laws::law_trim(none, dir, none, CharSet::White);
    assert(!CharSet::AnySlash.has(dir[dir.len() - 1]));
    assert(text::trim_end(dir, CharSet::AnySlash) == dir);
    split::lemma_last_in(dir, CharSet::AnySlash);
    assert(none + none + none == none);
    text_laws::law_trim(none, none, none, CharSet::White);
}

proof fn lemma_split_file(dir: Seq<char>, slash: char, file: Seq<char>)
    requires
        CharSet::AnySlash.has(slash),
        plain_entry(file),
        dir.len() > 0 ==> !CharSet::White.has(dir[0]) && dir[0] != '"',
    ensures
        resolver::exe_input(dir.push(slash) + file) == Ok::<
            (Seq<char>, Option<Seq<char>>),
            Seq<char>,
        >((file, resolver::hint_of(dir))),
{
    let path = dir.push(slash) + file;
    assert(path[0] == (if dir.len() > 0 {
        dir[0]
    } else {
        slash
    }));
    assert(path.last() == file.last());
    lemma_bare(path);
    assert(!CharSet::AnySlash.has(file[file.len() - 1]));
    let at = dir.len() as int;
    split::lemma_last_in(path, CharSet::AnySlash);
    assert(path[at] == slash);
    assert forall|j: int| at < j < path.len() implies !CharSet::AnySlash.has(#[trigger] path[j]) by {
        assert(path[j] == file[j - at - 1]);
    }
    assert(split::last_in(path, CharSet::AnySlash) == Some(at));
    assert(path.skip(at + 1) == file);
    assert(path.take(at) == dir);
}

/// What is nothing but white space and quotes is refused, and so is what is nothing but
/// slashes.
pub proof fn law_entered_nothing(space: Seq<char>, slashes: Seq<char>)
    requires
        text_laws::all_in(space, CharSet::White),
        slashes.len() > 0,
        text_laws::all_in(slashes, CharSet::AnySlash),
    ensures
        resolver::exe_input(space) is Err,
        resolver::exe_input(space)->Err_0 == "Exe / path is required"@,
        resolver::exe_input(slashes) is Err,
        resolver::exe_input(slashes)->Err_0 == "Could not parse exe name"@,
{
    let none = Seq::<char>::empty();
    assert(space + none + none == space);
    text_laws::law_trim(space, none, none, CharSet::White);
    assert(none + none + none == none);
    text_laws::law_trim(none, none, none, CharSet::Quote);
    text_laws::law_trim(none, none, none, CharSet::White);
    assert(CharSet::AnySlash.has(slashes[0]));
    assert(CharSet::AnySlash.has(slashes[slashes.len() - 1]));
    lemma_bare(slashes);
    assert(none + slashes == slashes);
    text_laws::law_trim(none, none, slashes, CharSet::AnySlash);
}

/// A game needs a title that is more than white space, and an executable; the first
/// that is missing is told.
pub proof fn law_entry_is_refused(title: Seq<char>, exe_path: Seq<char>)
    ensures
        text_laws::all_in(title, CharSet::White) ==> session::manual_refusal(title, exe_path) == Some(
            "Title is required"@,
        ),
        !text_laws::all_in(title, CharSet::White) ==> (session::manual_refusal(title, exe_path) is None
            <==> resolver::exe_input(exe_path) is Ok),
        !text_laws::all_in(title, CharSet::White) && resolver::exe_input(exe_path) is Err
            ==> session::manual_refusal(title, exe_path) == Some(
            resolver::exe_input(exe_path)->Err_0,
        ),
{
    let none = Seq::<char>::empty();
    if text_laws::all_in(title, CharSet::White) {
        assert(title + none + none == title);
        text_laws::law_trim(title, none, none, CharSet::White);
    } else {
        let start = text::trim_start(title, CharSet::White);
        text_laws::law_trim_start(title, CharSet::White);
        if start.len() == 0 {
            assert(title.take(title.len() as int) == title);
        } else {
            text_laws::law_trim_end(start, CharSet::White);
            let t = text::trim_end(start, CharSet::White);
            if t.len() == 0 {
                assert(start.skip(0) == start);
                assert(CharSet::White.has(start[0]));
            }
        }
    }
}

/// The game that is entered has the title without white space around it, the name and
/// the hint of the executable, the app id and the id that are given.
pub proof fn law_entered_game(
    title: Seq<char>,
    exe_path: Seq<char>,
    steam_app_id: Option<u32>,
    id: Seq<char>,
)
    requires
        session::manual_refusal(title, exe_path) is None,
    ensures
        ({
            let g = session::entered_game(title, exe_path, steam_app_id, id);
            &&& g.id == id
            &&& g.title == text::trim(title, CharSet::White)
            &&& resolver::exe_input(exe_path) == Ok::<(Seq<char>, Option<Seq<char>>), Seq<char>>(
                (g.exe_name, g.path_hint),
            )
            &&& g.steam_app_id == steam_app_id
        }),
{
}

/// A game that is entered is among the games of the user, behind the others; a game with
/// the same executable, up to the case of letters, and the same hint gives way to it,
/// and every other game stays.
pub proof fn law_entered_replaces(
    games: Seq<identity::ManualView>,
    g: identity::ManualView,
    o: identity::ManualView,
)
    ensures
        session::with_manual_game(games, g).len() > 0,
        session::with_manual_game(games, g).last() == g,
        session::with_manual_game(games, g).drop_last().contains(o) <==> games.contains(o) && !(
        text::lower(o.exe_name) == text::lower(g.exe_name) && o.path_hint == g.path_hint),
{
    let f = |o: identity::ManualView|
        !(text::same_letters(o.exe_name, g.exe_name) && o.path_hint == g.path_hint);
    let kept = games.filter(f);
    let all = session::with_manual_game(games, g);
    assert(all.drop_last() == kept);
    search::lemma_filter_has(games, f, o);
}

/// A game that was entered goes by its Steam app id where it has one, and else by the id
/// that it was entered under.
pub proof fn law_entered_id(g: identity::ManualView)
    ensures
        g.steam_app_id is Some ==> resolver::manual_id(g) == "steam:"@ + number::decimal(
            g.steam_app_id->0 as nat,
        ),
        g.steam_app_id is None ==> resolver::manual_id(g) == "manual:"@ + g.id,
{
}

/// A game that was entered fits a process whose name is its executable, up to the case
/// of letters and white space around what was entered, with or without `.exe` on either
/// side, if its hint stands in the path.
pub proof fn law_entered_game_fits(
    g: identity::ManualView,
    p: identity::ProcessView,
    bare: Seq<char>,
    entered: nat,
    running: nat,
)
    requires
        text::lower(text::trim(g.exe_name, CharSet::White))
            == identity::catalog_laws::with_exe(bare, entered),
        text::lower(p.name) == identity::catalog_laws::with_exe(bare, running),
        !text::ends_with(bare, ".exe"@),
    ensures
        g.path_hint is None ==> resolver::manual_fits(g, p),
        g.path_hint is Some && p.exe_path is Some ==> (resolver::manual_fits(g, p)
            <==> text::contains(
            text::lower(text::swap_char(p.exe_path->0, '\\', '/')),
            text::lower(text::swap_char(g.path_hint->0, '\\', '/')),
        )),
{
    identity::catalog_laws::lemma_with_exe(bare, entered);
    identity::catalog_laws::lemma_with_exe(bare, running);
}

/// A process with another name, up to all that, is not fitted by the game.
pub proof fn law_other_names_do_not_fit(
    g: identity::ManualView,
    p: identity::ProcessView,
    bare: Seq<char>,
    entered: nat,
    other: Seq<char>,
    running: nat,
)
    requires
        text::lower(text::trim(g.exe_name, CharSet::White))
            == identity::catalog_laws::with_exe(bare, entered),
        text::lower(p.name) == identity::catalog_laws::with_exe(other, running),
        !text::ends_with(bare, ".exe"@),
        !text::ends_with(other, ".exe"@),
        bare != other,
        text::lower(g.exe_name) != text::lower(p.name),
    ensures
        !resolver::manual_fits(g, p),
{
    identity::catalog_laws::lemma_with_exe(bare, entered);
    identity::catalog_laws::lemma_with_exe(other, running);
    text_laws::law_lower(p.name);
}

/// Of the games that fit, the first that was entered counts, with medium confidence.
pub proof fn law_first_entered_counts(
    games: Seq<identity::ManualView>,
    p: identity::ProcessView,
    k: int,
)
    requires
        0 <= k <= games.len(),
        k < games.len() ==> resolver::manual_fits(games[k], p),
        forall|j: int| 0 <= j < k ==> !resolver::manual_fits(#[trigger] games[j], p),
    ensures
        k == games.len() ==> resolver::manual_match(games, p) is None,
        k < games.len() ==> {
            let m = resolver::manual_match(games, p);
            &&& m is Some
            &&& m->0.id == resolver::manual_id(games[k])
            &&& m->0.title == games[k].title
            &&& m->0.steam_app_id == games[k].steam_app_id
            &&& m->0.exe == Some(p.name)
            &&& m->0.confidence == identity::Confidence::Medium
            &&& m->0.source == "manual"@
            &&& m->0.fingerprint is None
        },
{
    let f = |g: identity::ManualView| resolver::manual_fits(g, p);
    assert(forall|j: int| 0 <= j < k ==> !f(#[trigger] games[j]));
    if k < games.len() {
        search::lemma_first_is(games, f, k);
    } else {
        search::lemma_first_where(games, f);
    }
}

// ---------------------------------------------------------------------------
// What the user has said
// ---------------------------------------------------------------------------

/// What the user has said of a process is found by its fingerprint, and an ignored game
/// by its identity.
pub proof fn law_found_by(
    mappings: Seq<UserMapping>,
    titles: Seq<IgnoredIdentity>,
    ignored: Seq<String>,
    key: Seq<char>,
)
    ensures
        keyed::lookup(mappings, key) is Some ==> keyed::lookup(mappings, key)->0.fingerprint@ == key
            && mappings.contains(keyed::lookup(mappings, key)->0),
        keyed::lookup(mappings, key) is None ==> forall|i: int|
            0 <= i < mappings.len() ==> (#[trigger] mappings[i]).fingerprint@ != key,
        keyed::lookup(titles, key) is Some ==> keyed::lookup(titles, key)->0.identity_id@ == key
            && titles.contains(keyed::lookup(titles, key)->0),
        keyed::lookup(titles, key) is None ==> forall|i: int|
            0 <= i < titles.len() ==> (#[trigger] titles[i]).identity_id@ != key,
        keyed::has_key(ignored, key) <==> exists|i: int|
            0 <= i < ignored.len() && (#[trigger] ignored[i])@ == key,
{
    keyed::lemma_index_of_key(mappings, key);
    keyed::lemma_index_of_key(titles, key);
    keyed::lemma_index_of_key(ignored, key);
}

/// A confirmed game has the title and the fingerprint that it was confirmed with, and an
/// identity that no other fingerprint has.
pub proof fn law_confirmed_mapping(
    m: UserMapping,
    n: UserMapping,
    fingerprint: Seq<char>,
    other: Seq<char>,
    title: Seq<char>,
    other_title: Seq<char>,
)
    requires
        session::is_mapping(m, fingerprint, title),
        session::is_mapping(n, other, other_title),
    ensures
        m.fingerprint@ == fingerprint,
        m.title@ == title,
        m.identity_id@ == "user:"@ + fingerprint,
        m.identity_id@ == n.identity_id@ ==> fingerprint == other,
{
    reveal_strlit("user:");
    if m.identity_id@ == n.identity_id@ {
        assert(("user:"@ + fingerprint).skip(5) == fingerprint);
        assert(("user:"@ + other).skip(5) == other);
    }
}

// ---------------------------------------------------------------------------
// What the user is shown
// ---------------------------------------------------------------------------

/// While nothing is played the stored session is shown, and so it is where it is that of
/// the game that is played.
pub proof fn law_stored_is_shown(
    live: live_session::LiveView,
    stored: Option<db::RowView>,
    now: int,
)
    ensures
        live.identity is None ==> session::overlay(live, stored, now) == stored,
        live.identity is Some && stored is Some && stored->0.identity_id == live.identity->0.id
            ==> session::overlay(live, stored, now) == stored,
{
}

/// A game that is played and not stored is shown as a session that goes on since it
/// began, or since now, under the id of its session, or else under one that is made from
/// its own.
pub proof fn law_played_is_shown(
    live: live_session::LiveView,
    stored: Option<db::RowView>,
    now: int,
)
    requires
        live.identity is Some,
        stored is None || stored->0.identity_id != live.identity->0.id,
    ensures
        ({
            let r = session::overlay(live, stored, now);
            let i = live.identity->0;
            &&& r is Some
            &&& r->0.identity_id == i.id
            &&& r->0.title == i.title
            &&& r->0.steam_app_id == i.steam_app_id
            &&& r->0.exe == i.exe
            &&& r->0.source == i.source
            &&& live.started_at is Some ==> r->0.started_at == live.started_at->0
            &&& live.started_at is None ==> r->0.started_at == now
            &&& live.db_session_id is Some ==> r->0.id == live.db_session_id->0
            &&& live.db_session_id is None ==> r->0.id == "live:"@ + i.id
            &&& r->0.push_status == PushStatus::Active
            &&& r->0.ended_at is None
        }),
{
}

} // verus!
