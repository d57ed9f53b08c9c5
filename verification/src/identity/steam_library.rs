//! The games of the local Steam libraries, and the Steam markers in command
//! lines.

use std::collections::HashMap;

use vstd::prelude::*;

use super::{Confidence, GameIdentity, ProcessSnapshot};
use crate::host::HostOs;
use crate::identity;
use crate::number;
use crate::number::{decimal_of, digits_u32, parse_u32_of};
use crate::split;
use crate::split::lines_of;
use crate::text;
use crate::text::{
    chars_of, find_chars, has_prefix, has_suffix, join2, join3, same, to_lower, trim_end_of, trim_of,
    with_char_swapped, with_text_replaced, without_prefix, CharSet,
};

verus! {

broadcast use vstd::std_specs::hash::group_hash_axioms;

/// A game that Steam has installed.
#[derive(Debug)]
pub struct SteamGame {
    pub app_id: u32,
    pub title: String,
    pub install_path: String,
}

impl Clone for SteamGame {
    fn clone(&self) -> (r: Self)
        ensures
            r == *self,
    {
        SteamGame {
            app_id: self.app_id,
            title: self.title.clone(),
            install_path: self.install_path.clone(),
        }
    }
}

/// The installed games by their Steam app id.
#[derive(Debug)]
pub struct SteamLibraryIndex {
    pub games: HashMap<u32, SteamGame>,
}

// ---------------------------------------------------------------------------
// Where Steam stands
// ---------------------------------------------------------------------------

/// What the path of a place is below.
#[derive(Debug, Clone, Copy, PartialEq, Eq, Structural)]
pub enum PlaceBase {
    /// Nothing: the path is whole.
    Disk,
    /// The home of the user.
    Home,
    /// The folder that Windows names for programs of 32 bits.
    ProgramFiles,
}

/// A place where Steam may stand.
#[derive(Debug)]
pub struct SteamPlace {
    pub base: PlaceBase,
    pub path: &'static str,
    /// What must be there, below the place; nothing where the place itself must.
    pub mark: Option<&'static str>,
}

/// The base and the path of a place, and what must be there.
pub open spec fn place_view(p: SteamPlace) -> (PlaceBase, Seq<char>, Option<Seq<char>>) {
    (
        p.base,
        p.path@,
        match p.mark {
            Some(m) => Some(m@),
            None => None,
        },
    )
}

/// The places where Steam may stand, in the order in which they are looked at.
pub open spec fn steam_places(host: HostOs) -> Seq<(PlaceBase, Seq<char>, Option<Seq<char>>)> {
    match host {
        HostOs::Windows => seq![
            (PlaceBase::Disk, "C:\\Program Files (x86)\\Steam"@, Some("steam.exe"@)),
            (PlaceBase::Disk, "C:\\Program Files\\Steam"@, Some("steam.exe"@)),
            (PlaceBase::ProgramFiles, "Steam"@, None),
        ],
        HostOs::Linux => seq![
            (PlaceBase::Home, ".steam/steam"@, None),
            (PlaceBase::Home, ".local/share/Steam"@, None),
            (PlaceBase::Home, ".var/app/com.valvesoftware.Steam/data/Steam"@, None),
        ],
        _ => Seq::empty(),
    }
}

/// The places where Steam may stand, in the order in which they are looked at.
pub fn steam_places_of(host: HostOs) -> (r: Vec<SteamPlace>)
    ensures
        r@.map_values(|p: SteamPlace| place_view(p)) == steam_places(host),
{
    match host {
        HostOs::Windows => vec![
            SteamPlace {
                base: PlaceBase::Disk,
                path: "C:\\Program Files (x86)\\Steam",
                mark: Some("steam.exe"),
            },
            SteamPlace {
                base: PlaceBase::Disk,
                path: "C:\\Program Files\\Steam",
                mark: Some("steam.exe"),
            },
            SteamPlace { base: PlaceBase::ProgramFiles, path: "Steam", mark: None },
        ],
        HostOs::Linux => vec![
            SteamPlace { base: PlaceBase::Home, path: ".steam/steam", mark: None },
            SteamPlace { base: PlaceBase::Home, path: ".local/share/Steam", mark: None },
            SteamPlace {
                base: PlaceBase::Home,
                path: ".var/app/com.valvesoftware.Steam/data/Steam",
                mark: None,
            },
        ],
        _ => Vec::new(),
    }
}

// ---------------------------------------------------------------------------
// Identities
// ---------------------------------------------------------------------------

/// The identity id of a Steam game.
pub open spec fn steam_id(app_id: u32) -> Seq<char> {
    "steam:"@ + number::decimal(app_id as nat)
}

/// Two Steam games have different identity ids.
pub proof fn law_steam_id_injective(a: u32, b: u32)
    requires
        steam_id(a) == steam_id(b),
    ensures
        a == b,
{
    reveal_strlit("steam:");
    assert(steam_id(a).skip(6) == number::decimal(a as nat));
    assert(steam_id(b).skip(6) == number::decimal(b as nat));
    number::lemma_decimal_injective(a as nat, b as nat);
}

/// The identity id of a Steam game.
pub fn steam_id_of(app_id: u32) -> (r: String)
    ensures
        r@ == steam_id(app_id),
{
    let d = decimal_of(app_id as u64);
    join2("steam:", d.as_str())
}

/// The title of a Steam game: that of the library, or a generic one.
pub open spec fn steam_title(games: Map<u32, SteamGame>, app_id: u32) -> Seq<char> {
    if games.contains_key(app_id) {
        games[app_id].title@
    } else {
        "Steam App "@ + number::decimal(app_id as nat)
    }
}

/// The identity of a Steam game that is known by its app id.
pub open spec fn app_identity(
    games: Map<u32, SteamGame>,
    app_id: u32,
) -> identity::IdentityView {
    identity::IdentityView {
        id: steam_id(app_id),
        title: steam_title(games, app_id),
        steam_app_id: Some(app_id),
        exe: None,
        confidence: Confidence::High,
        source: "steam"@,
        fingerprint: None,
    }
}

/// The executable at `exe` lies in the directory `install`: it is that path, or
/// begins with it and a slash. Backslashes are slashes, ASCII case does not
/// matter, and slashes at the end of `install` do not count.
pub open spec fn path_under(exe: Seq<char>, install: Seq<char>) -> bool {
    let path = text::lower(text::swap_char(exe, '\\', '/'));
    let dir = text::trim_end(
        text::lower(text::swap_char(install, '\\', '/')),
        CharSet::Slash,
    );
    dir.len() > 0 && (path == dir || text::starts_with(path, dir + "/"@))
}

/// Whether `exe_path` lies in the directory `install_path`.
pub fn path_is_under_install(exe_path: &str, install_path: &str) -> (r: bool)
    ensures
        r == path_under(exe_path@, install_path@),
{
    let p = with_char_swapped(exe_path, '\\', '/');
    let path = to_lower(p.as_str());
    let d = with_char_swapped(install_path, '\\', '/');
    let low = to_lower(d.as_str());
    let dir = trim_end_of(low.as_str(), CharSet::Slash);
    if dir.as_str().unicode_len() == 0 {
        return false;
    }
    let inside = join2(dir.as_str(), "/");
    same(path.as_str(), dir.as_str()) || has_prefix(path.as_str(), inside.as_str())
}

/// A directory whose name continues that of the install directory is another
/// directory: a path that is the install directory followed by a character
/// other than a slash does not lie in it.
pub proof fn law_path_boundary(exe: Seq<char>, install: Seq<char>, dir: Seq<char>)
    requires
        dir == text::trim_end(
            text::lower(text::swap_char(install, '\\', '/')),
            CharSet::Slash,
        ),
        exe.len() > dir.len(),
        exe[dir.len() as int] != '/',
        exe[dir.len() as int] != '\\',
    ensures
        !path_under(exe, install),
{
    let path = text::lower(text::swap_char(exe, '\\', '/'));
    reveal_strlit("/");
    let n = dir.len() as int;
    assert(path.len() == exe.len());
    assert(path[n] != '/');
    if text::starts_with(path, dir + "/"@) {
        assert(path.subrange(0, n + 1)[n] == (dir + "/"@)[n]);
    }
}

/// The library's entry for `app_id` is installed where `exe` lies.
pub open spec fn installed_at(games: Map<u32, SteamGame>, app_id: u32, exe: Seq<char>) -> bool {
    games.contains_key(app_id) && path_under(exe, games[app_id].install_path@)
}

/// `app_id` is the only entry that is installed where `exe` lies.
pub open spec fn only_install(games: Map<u32, SteamGame>, app_id: u32, exe: Seq<char>) -> bool {
    &&& installed_at(games, app_id, exe)
    &&& forall|other: u32| #[trigger] installed_at(games, other, exe) ==> other == app_id
}

/// The identity that the path of a process gives it.
pub open spec fn path_identity(
    game: SteamGame,
    name: Seq<char>,
) -> identity::IdentityView {
    identity::IdentityView {
        id: steam_id(game.app_id),
        title: game.title@,
        steam_app_id: Some(game.app_id),
        exe: Some(name),
        confidence: Confidence::Low,
        source: "steam-path"@,
        fingerprint: None,
    }
}

/// The identity by path: there is one if exactly one game of the library is
/// installed where the executable lies.
pub open spec fn path_match(
    games: Map<u32, SteamGame>,
    p: identity::ProcessView,
) -> Option<identity::IdentityView> {
    match p.exe_path {
        None => None,
        Some(exe) => if exists|k: u32| only_install(games, k, exe) {
            Some(path_identity(games[choose|k: u32| only_install(games, k, exe)], p.name))
        } else {
            None
        },
    }
}

impl SteamLibraryIndex {
    /// An index without games.
    pub fn empty() -> (r: Self)
        ensures
            r.games@ == Map::<u32, SteamGame>::empty(),
    {
        SteamLibraryIndex { games: HashMap::new() }
    }

    /// Adds a game, in place of what its app id had before.
    pub fn add_game(&mut self, game: SteamGame)
        ensures
            final(self).games@ == old(self).games@.insert(game.app_id, game),
    {
        let _before = self.games.insert(game.app_id, game);
    }

    /// The app ids of the index, each once, in no particular order.
    pub fn app_ids(&self) -> (r: Vec<u32>)
        ensures
            r@.no_duplicates(),
            r@.to_set() == self.games@.dom(),
    {
        let mut r: Vec<u32> = Vec::new();
        let ghost keys = vstd::std_specs::iter::IteratorSpec::remaining(
            &vstd::std_specs::hash::spec_keys_iter(&self.games),
        );
        for k in it: self.games.keys()
            invariant
                it.seq() == keys,
                r@ == keys.unref().take(it.index() as int),
        {
            r.push(*k);
        }
        assert(r@ == keys.unref());
        r
    }

    /// The identity of a game that is known by its app id.
    pub fn resolve_app_id(&self, app_id: u32) -> (r: Option<GameIdentity>)
        ensures
            r is Some,
            r->0@ == app_identity(self.games@, app_id),
    {
        let title = match self.games.get(&app_id) {
            Some(g) => g.title.clone(),
            None => {
                let d = decimal_of(app_id as u64);
                join2("Steam App ", d.as_str())
            },
        };
        Some(
            GameIdentity {
                id: steam_id_of(app_id),
                title,
                steam_app_id: Some(app_id),
                exe: None,
                confidence: Confidence::High,
                source: "steam".to_owned(),
                fingerprint: None,
            },
        )
    }

    /// The identity that the path of a process gives it: there is one if the
    /// path lies in the install directory of exactly one game. Its confidence
    /// is low.
    pub fn match_path(&self, proc: &ProcessSnapshot) -> (r: Option<GameIdentity>)
        ensures
            match r {
                Some(id) => path_match(self.games@, proc@) == Some(id@),
                None => path_match(self.games@, proc@) is None,
            },
    {
        let exe = match &proc.exe_path {
            Some(p) => p,
            None => {
                return None;
            },
        };
        let ids = self.app_ids();
        let mut hit: Option<usize> = None;
        let mut i: usize = 0;
        while i < ids.len()
            invariant
                i <= ids@.len(),
                ids@.no_duplicates(),
                ids@.to_set() == self.games@.dom(),
                proc.exe_path == Some(*exe),
                hit is Some ==> hit->0 < i && installed_at(
                    self.games@,
                    ids@[hit->0 as int],
                    exe@,
                ),
                forall|j: int|
                    0 <= j < i && installed_at(self.games@, #[trigger] ids@[j], exe@) ==> hit
                        is Some && hit->0 == j,
            decreases ids.len() - i,
        {
            let k: u32 = ids[i];
            assert(ids@.to_set().contains(k));
            if let Some(g) = self.games.get(&k) {
                if path_is_under_install(exe.as_str(), g.install_path.as_str()) {
                    if let Some(m) = hit {
                        assert(installed_at(self.games@, k, exe@));
                        assert(installed_at(self.games@, ids@[m as int], exe@));
                        return None;
                    }
                    hit = Some(i);
                }
            }
            i = i + 1;
        }
        proof {
            assert forall|k: u32| #[trigger] installed_at(self.games@, k, exe@) implies hit is Some
                && ids@[hit->0 as int] == k by {
                assert(ids@.to_set().contains(k));
                let m = choose|m: int| 0 <= m < ids@.len() && ids@[m] == k;
                assert(installed_at(self.games@, ids@[m], exe@));
            }
        }
        match hit {
            Some(m) => {
                let k: u32 = ids[m];
                assert(only_install(self.games@, k, exe@));
                match self.games.get(&k) {
                    Some(game) => Some(
                        GameIdentity {
                            id: steam_id_of(game.app_id),
                            title: game.title.clone(),
                            steam_app_id: Some(game.app_id),
                            exe: Some(proc.name.clone()),
                            confidence: Confidence::Low,
                            source: "steam-path".to_owned(),
                            fingerprint: None,
                        },
                    ),
                    None => None,
                }
            },
            None => None,
        }
    }
}

// ---------------------------------------------------------------------------
// Library files
// ---------------------------------------------------------------------------

/// `key` between quotes.
pub open spec fn quoted(key: Seq<char>) -> Seq<char> {
    "\""@ + key + "\""@
}

/// The value on a line that begins with `needle`: what follows, without the
/// white space and then the quotes around it.
pub open spec fn value_on_line(line: Seq<char>, needle: Seq<char>) -> Option<Seq<char>> {
    match text::strip_prefix(text::trim(line, CharSet::White), needle) {
        Some(rest) => Some(text::trim(text::trim(rest, CharSet::White), CharSet::Quote)),
        None => None,
    }
}

fn value_on(line: &str, needle: &str) -> (r: Option<String>)
    ensures
        text::opt_view(r) == value_on_line(line@, needle@),
{
    let t = trim_of(line, CharSet::White);
    match without_prefix(t.as_str(), needle) {
        Some(rest) => {
            let v = trim_of(rest.as_str(), CharSet::White);
            Some(trim_of(v.as_str(), CharSet::Quote))
        },
        None => None,
    }
}

/// The first value, other than an empty one, on the lines that begin with
/// `needle`.
pub open spec fn first_value(lines: Seq<Seq<char>>, needle: Seq<char>) -> Option<Seq<char>>
    decreases lines.len(),
{
    if lines.len() == 0 {
        None
    } else {
        match value_on_line(lines[0], needle) {
            Some(v) => if v.len() > 0 {
                Some(v)
            } else {
                first_value(lines.skip(1), needle)
            },
            None => first_value(lines.skip(1), needle),
        }
    }
}

/// The value of `key` in a library file.
pub fn vdf_string(raw: &str, key: &str) -> (r: Option<String>)
    ensures
        text::opt_view(r) == first_value(split::lines(raw@), quoted(key@)),
{
    let needle = join3("\"", key, "\"");
    let lines = lines_of(raw);
    let mut i: usize = 0;
    assert(split::lines(raw@).skip(0) == split::lines(raw@));
    while i < lines.len()
        invariant
            i <= lines@.len(),
            needle@ == quoted(key@),
            text::views(lines@) == split::lines(raw@),
            first_value(split::lines(raw@), needle@) == first_value(
                split::lines(raw@).skip(i as int),
                needle@,
            ),
        decreases lines.len() - i,
    {
        let ghost rest = split::lines(raw@).skip(i as int);
        assert(rest[0] == text::views(lines@)[i as int]);
        assert(rest.skip(1) == split::lines(raw@).skip(i + 1));
        if let Some(v) = value_on(lines[i].as_str(), needle.as_str()) {
            if v.as_str().unicode_len() > 0 {
                return Some(v);
            }
        }
        i = i + 1;
    }
    assert(split::lines(raw@).skip(i as int).len() == 0);
    None
}

/// The library directories that a list of lines names, in order, with doubled
/// backslashes made single.
pub open spec fn library_paths(lines: Seq<Seq<char>>) -> Seq<Seq<char>>
    decreases lines.len(),
{
    if lines.len() == 0 {
        Seq::empty()
    } else {
        let before = library_paths(lines.drop_last());
        match value_on_line(lines.last(), quoted("path"@)) {
            Some(v) => before.push(text::replace(v, "\\\\"@, "\\"@)),
            None => before,
        }
    }
}

/// The library directories that the text of a `libraryfolders.vdf` names, in
/// order.
pub fn library_paths_of(raw: &str) -> (r: Vec<String>)
    ensures
        text::views(r@) == library_paths(split::lines(raw@)),
{
    let lines = lines_of(raw);
    let needle = join3("\"", "path", "\"");
    let mut r: Vec<String> = Vec::new();
    let mut i: usize = 0;
    while i < lines.len()
        invariant
            i <= lines@.len(),
            needle@ == quoted("path"@),
            text::views(lines@) == split::lines(raw@),
            text::views(r@) == library_paths(split::lines(raw@).take(i as int)),
        decreases lines.len() - i,
    {
        let ghost now = split::lines(raw@).take(i + 1);
        assert(now.drop_last() == split::lines(raw@).take(i as int));
        assert(now.last() == text::views(lines@)[i as int]);
        let ghost before = r@;
        if let Some(v) = value_on(lines[i].as_str(), needle.as_str()) {
            proof {
                reveal_strlit("\\\\");
            }
            let path = with_text_replaced(v.as_str(), "\\\\", "\\");
            r.push(path);
            assert(text::views(r@) == text::views(before).push(path@));
        }
        i = i + 1;
    }
    assert(split::lines(raw@).take(i as int) == split::lines(raw@));
    r
}

/// The file names of app manifests.
pub open spec fn manifest_name(name: Seq<char>) -> bool {
    text::starts_with(name, "appmanifest_"@) && text::ends_with(name, ".acf"@)
}

/// The folders of the Steam libraries: the root, then each of the paths that is
/// there, in order and once.
pub open spec fn folders(
    root: Seq<char>,
    paths: Seq<Seq<char>>,
    there: Seq<bool>,
) -> Seq<Seq<char>>
    decreases paths.len(),
{
    if paths.len() == 0 {
        seq![root]
    } else {
        let before = folders(root, paths.drop_last(), there.drop_last());
        if there.last() && !before.contains(paths.last()) {
            before.push(paths.last())
        } else {
            before
        }
    }
}

fn has_folder(list: &Vec<String>, path: &String) -> (r: bool)
    ensures
        r == text::views(list@).contains(path@),
{
    let ghost v = text::views(list@);
    let mut i: usize = 0;
    while i < list.len()
        invariant
            i <= list@.len(),
            v == text::views(list@),
            forall|j: int| 0 <= j < i ==> #[trigger] v[j] != path@,
        decreases list.len() - i,
    {
        assert(v[i as int] == list@[i as int]@);
        if same(list[i].as_str(), path.as_str()) {
            return true;
        }
        i = i + 1;
    }
    false
}

/// The folders of the Steam libraries. `there` says which of the paths are there.
pub fn library_folders(root: String, paths: &Vec<String>, there: &Vec<bool>) -> (r: Vec<String>)
    requires
        paths@.len() == there@.len(),
    ensures
        text::views(r@) == folders(root@, text::views(paths@), there@),
{
    let ghost p = text::views(paths@);
    let ghost top = root@;
    let mut r: Vec<String> = Vec::new();
    r.push(root);
    let mut i: usize = 0;
    assert(text::views(r@) == seq![top]);
    while i < paths.len()
        invariant
            i <= paths@.len(),
            paths@.len() == there@.len(),
            p == text::views(paths@),
            text::views(r@) == folders(top, p.take(i as int), there@.take(i as int)),
        decreases paths.len() - i,
    {
        assert(p.take(i + 1).drop_last() == p.take(i as int));
        assert(there@.take(i + 1).drop_last() == there@.take(i as int));
        assert(p.take(i + 1).last() == paths@[i as int]@);
        if there[i] && !has_folder(&r, &paths[i]) {
            let ghost was = r@;
            r.push(paths[i].clone());
            assert(text::views(r@) == text::views(was).push(paths@[i as int]@));
        }
        i = i + 1;
    }
    assert(p.take(i as int) == p);
    assert(there@.take(i as int) == there@);
    r
}

/// No folder is listed twice.
pub proof fn law_folders_once(root: Seq<char>, paths: Seq<Seq<char>>, there: Seq<bool>)
    ensures
        folders(root, paths, there).no_duplicates(),
    decreases paths.len(),
{
    if paths.len() > 0 {
        law_folders_once(root, paths.drop_last(), there.drop_last());
    }
}


/// Whether a file of this name is an app manifest.
pub fn is_manifest_name(name: &str) -> (r: bool)
    ensures
        r == manifest_name(name@),
{
    has_prefix(name, "appmanifest_") && has_suffix(name, ".acf")
}

/// What an app manifest says of a game.
pub struct AppManifest {
    pub app_id: u32,
    pub title: String,
    /// The name of the install directory below `steamapps/common`.
    pub install_dir: String,
}

/// The mathematical value of an `AppManifest`.
#[verifier::ext_equal]
pub struct ManifestView {
    pub app_id: u32,
    pub title: Seq<char>,
    pub install_dir: Seq<char>,
}

impl View for AppManifest {
    type V = ManifestView;

    open spec fn view(&self) -> ManifestView {
        ManifestView {
            app_id: self.app_id,
            title: self.title@,
            install_dir: self.install_dir@,
        }
    }
}

/// The text of a manifest as a game: it has an app id that is a `u32` and an
/// install directory; a title that is missing is made from the app id.
pub open spec fn manifest(raw: Seq<char>) -> Option<ManifestView> {
    let lines = split::lines(raw);
    match (first_value(lines, quoted("appid"@)), first_value(lines, quoted("installdir"@))) {
        (Some(id), Some(dir)) => match number::parse_u32(id) {
            Some(n) => Some(
                ManifestView {
                    app_id: n,
                    title: match first_value(lines, quoted("name"@)) {
                        Some(t) => t,
                        None => "App "@ + number::decimal(n as nat),
                    },
                    install_dir: dir,
                },
            ),
            None => None,
        },
        _ => None,
    }
}

/// Reads the text of an app manifest.
pub fn parse_appmanifest(raw: &str) -> (r: Option<AppManifest>)
    ensures
        match r {
            Some(m) => manifest(raw@) == Some(m@),
            None => manifest(raw@) is None,
        },
{
    let id = match vdf_string(raw, "appid") {
        Some(t) => t,
        None => {
            return None;
        },
    };
    let app_id: u32 = match parse_u32_of(id.as_str()) {
        Some(n) => n,
        None => {
            return None;
        },
    };
    let title = match vdf_string(raw, "name") {
        Some(t) => t,
        None => {
            let d = decimal_of(app_id as u64);
            join2("App ", d.as_str())
        },
    };
    match vdf_string(raw, "installdir") {
        Some(install_dir) => Some(AppManifest { app_id, title, install_dir }),
        None => None,
    }
}

// ---------------------------------------------------------------------------
// Command lines
// ---------------------------------------------------------------------------

/// What Steam puts before the app id in the command lines of its games.
pub open spec fn launch_marker() -> Seq<char> {
    "SteamLaunch AppId="@
}

/// What the search goes on with after a marker that stands before `after`: it
/// passes over the digits, or over one character.
pub open spec fn after_id(after: Seq<char>) -> Seq<char> {
    let n = number::digit_run(after);
    after.skip(if n > 0 {
        n as int
    } else {
        1
    })
}

/// The ids behind the markers in `s`, added to `ids` in order, each once.
pub open spec fn ids_added(s: Seq<char>, ids: Seq<u32>) -> Seq<u32>
    decreases s.len(),
{
    match text::find(s, launch_marker()) {
        None => ids,
        Some(i) => {
            let after = s.skip(i + launch_marker().len());
            let now = match number::parse_u32(after.take(number::digit_run(after) as int)) {
                Some(id) => if ids.contains(id) {
                    ids
                } else {
                    ids.push(id)
                },
                None => ids,
            };
            proof {
                text::lemma_find_from(s, launch_marker(), 0);
                number::lemma_digit_run(after);
            }
            if after.len() > 0 {
                ids_added(after_id(after), now)
            } else {
                now
            }
        },
    }
}

/// The app ids in a command line.
pub open spec fn reaper_ids(cmdline: Seq<char>) -> Seq<u32> {
    ids_added(cmdline, Seq::empty())
}

/// The length of the run of digits in `cs` from index `from`.
fn digits_from(cs: &Vec<char>, from: usize) -> (to: usize)
    requires
        from <= cs@.len(),
    ensures
        from <= to <= cs@.len(),
        to - from == number::digit_run(cs@.skip(from as int)),
{
    let mut to: usize = from;
    assert(cs@.skip(from as int).skip(0) == cs@.skip(from as int));
    while to < cs.len() && '0' <= cs[to] && cs[to] <= '9'
        invariant
            from <= to <= cs@.len(),
            number::digit_run(cs@.skip(from as int)) == (to - from) + number::digit_run(
                cs@.skip(to as int),
            ),
        decreases cs.len() - to,
    {
        assert(cs@.skip(to as int).skip(1) == cs@.skip(to + 1));
        to = to + 1;
    }
    to
}

/// Whether `id` is among `ids`.
pub fn has_id(ids: &Vec<u32>, id: u32) -> (r: bool)
    ensures
        r == ids@.contains(id),
{
    let mut i: usize = 0;
    while i < ids.len()
        invariant
            i <= ids@.len(),
            forall|j: int| 0 <= j < i ==> ids@[j] != id,
        decreases ids.len() - i,
    {
        if ids[i] == id {
            return true;
        }
        i = i + 1;
    }
    false
}

/// The Steam app ids in a command line (`SteamLaunch AppId=440`), each once, in
/// the order in which they stand there.
pub fn parse_reaper_app_ids(cmdline: &str) -> (r: Vec<u32>)
    ensures
        r@ == reaper_ids(cmdline@),
{
    let cs = chars_of(cmdline);
    let marker = chars_of("SteamLaunch AppId=");
    let mut ids: Vec<u32> = Vec::new();
    let mut i: usize = 0;
    assert(cs@.skip(0) == cmdline@);
    loop
        invariant
            i <= cs@.len(),
            marker@ == launch_marker(),
            reaper_ids(cmdline@) == ids_added(cs@.skip(i as int), ids@),
        decreases cs.len() - i,
    {
        let ghost rest = cs@.skip(i as int);
        proof {
            split::lemma_find_skip(cs@, launch_marker(), i as int);
        }
        match find_chars(&cs, &marker, i) {
            None => {
                return ids;
            },
            Some(j) => {
                let from: usize = j + marker.len();
                let ghost after = cs@.skip(from as int);
                assert(rest.skip(j - i + launch_marker().len()) == after);
                if from == cs.len() {
                    assert(number::digit_run(after) == 0);
                    return ids;
                }
                let to = digits_from(&cs, from);
                proof {
                    number::lemma_digit_run(after);
                    assert(after.take(to - from) == cs@.subrange(from as int, to as int));
                    if to > from {
                        assert(after.take(to - from)[0] == after[0]);
                    }
                    assert(number::unsigned_digits(after.take(to - from)) == after.take(to - from));
                }
                if let Some(id) = digits_u32(&cs, from, to) {
                    if !has_id(&ids, id) {
                        ids.push(id);
                    }
                }
                let next: usize = if to > from {
                    to
                } else {
                    from + 1
                };
                assert(after_id(after) == cs@.skip(next as int));
                i = next;
            },
        }
    }
}

/// Where the digits of an app id may end.
pub open spec fn id_ends(after: Seq<char>) -> bool {
    after.len() == 0 || after[0] == ' ' || after[0] == '\0' || after[0] == '\t'
}

/// At `i` stands this marker with an id, and the id ends there.
pub open spec fn ends_at(cmdline: Seq<char>, needle: Seq<char>, i: int) -> bool {
    text::occurs_at(cmdline, needle, i) && id_ends(cmdline.skip(i + needle.len()))
}

/// The marker with the digits of `app_id`.
pub open spec fn marked_id(app_id: u32) -> Seq<char> {
    launch_marker() + number::decimal(app_id as nat)
}

/// Somewhere the marker with the digits of `app_id` stands before an end: there
/// the id is not the beginning of a longer one.
pub open spec fn has_app_id(cmdline: Seq<char>, app_id: u32) -> bool {
    exists|i: int| ends_at(cmdline, marked_id(app_id), i)
}

/// Whether a command line has this app id, and not only longer ones that begin
/// with it.
pub fn cmdline_has_app_id(cmdline: &str, app_id: u32) -> (r: bool)
    ensures
        r == has_app_id(cmdline@, app_id),
{
    let d = decimal_of(app_id as u64);
    let needle = join2("SteamLaunch AppId=", d.as_str());
    let cs = chars_of(cmdline);
    let nc = chars_of(needle.as_str());
    let n: usize = cs.len();
    let mut from: usize = 0;
    proof {
        number::lemma_decimal_reads_back(app_id as nat);
    }
    loop
        invariant
            from <= n,
            n == cs@.len(),
            cs@ == cmdline@,
            nc@ == marked_id(app_id),
            nc@.len() > 0,
            forall|k: int| 0 <= k < from ==> !ends_at(cmdline@, nc@, k),
        decreases n - from,
    {
        proof {
            text::lemma_find_from(cs@, nc@, from as int);
        }
        match find_chars(&cs, &nc, from) {
            None => {
                assert(!has_app_id(cmdline@, app_id)) by {
                    if has_app_id(cmdline@, app_id) {
                        let i = choose|i: int| ends_at(cmdline@, marked_id(app_id), i);
                        assert(text::occurs_at(cs@, nc@, i));
                    }
                }
                return false;
            },
            Some(i) => {
                let to: usize = i + nc.len();
                let ended = if to == n {
                    true
                } else {
                    assert(cs@.skip(to as int)[0] == cs@[to as int]);
                    cs[to] == ' ' || cs[to] == '\0' || cs[to] == '\t'
                };
                assert(ended == ends_at(cmdline@, nc@, i as int));
                if ended {
                    return true;
                }
                assert forall|k: int| 0 <= k < i + 1 implies !ends_at(cmdline@, nc@, k) by {
                    if from <= k < i {
                        assert(!text::occurs_at(cs@, nc@, k));
                    }
                }
                from = i + 1;
            },
        }
    }
}

/// A command line has an app id only where the marker, the digits of the id and
/// then no digit stand in it.
pub proof fn law_app_id_boundary(cmdline: Seq<char>, app_id: u32)
    requires
        has_app_id(cmdline, app_id),
    ensures
        exists|i: int|
            {
                &&& #[trigger] text::occurs_at(cmdline, marked_id(app_id), i)
                &&& number::digit_run(cmdline.skip(i + launch_marker().len())) == number::decimal(
                    app_id as nat,
                ).len()
            },
{
    let d = number::decimal(app_id as nat);
    let needle = launch_marker() + d;
    let i = choose|i: int| ends_at(cmdline, marked_id(app_id), i);
    let after = cmdline.skip(i + launch_marker().len());
    number::lemma_decimal_reads_back(app_id as nat);
    let n = d.len() as int;
    assert forall|k: int| 0 <= k < n implies #[trigger] after[k] == d[k] by {
        assert(cmdline.subrange(i, i + needle.len())[launch_marker().len() + k] == needle[launch_marker().len() + k]);
    }
    assert(after.skip(n) == cmdline.skip(i + needle.len()));
    lemma_run_at_least(after, n);
    assert(number::digit_run(after.skip(n)) == 0);
    assert(text::occurs_at(cmdline, needle, i));
}

/// A text that begins with `n` digits has a run of `n` digits and of those that
/// follow.
pub proof fn lemma_run_at_least(s: Seq<char>, n: int)
    requires
        0 <= n <= s.len(),
        forall|k: int| 0 <= k < n ==> number::is_digit(#[trigger] s[k]),
    ensures
        number::digit_run(s) == n + number::digit_run(s.skip(n)),
    decreases n,
{
    if n == 0 {
        assert(s.skip(0) == s);
    } else {
        let t = s.skip(1);
        assert(number::is_digit(s[0]));
        assert forall|k: int| 0 <= k < n - 1 implies number::is_digit(#[trigger] t[k]) by {
            assert(t[k] == s[k + 1]);
        }
        lemma_run_at_least(t, n - 1);
        assert(t.skip(n - 1) == s.skip(n));
    }
}

/// The app ids in a command line are distinct.
pub proof fn law_reaper_ids_distinct(cmdline: Seq<char>)
    ensures
        reaper_ids(cmdline).no_duplicates(),
{
    lemma_added_distinct(cmdline, Seq::empty());
}

proof fn lemma_added_distinct(s: Seq<char>, ids: Seq<u32>)
    requires
        ids.no_duplicates(),
    ensures
        ids_added(s, ids).no_duplicates(),
    decreases s.len(),
{
    match text::find(s, launch_marker()) {
        None => {},
        Some(i) => {
            text::lemma_find_from(s, launch_marker(), 0);
            let after = s.skip(i + launch_marker().len());
            number::lemma_digit_run(after);
            let now = match number::parse_u32(after.take(number::digit_run(after) as int)) {
                Some(id) => if ids.contains(id) {
                    ids
                } else {
                    ids.push(id)
                },
                None => ids,
            };
            if after.len() > 0 {
                lemma_added_distinct(after_id(after), now);
            }
        },
    }
}

} // verus!
