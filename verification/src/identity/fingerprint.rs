//! Fingerprints of processes that do not give away where they are installed.

use vstd::prelude::*;

use super::ProcessSnapshot;
use crate::digest;
use crate::digest::text_digest_of;
use crate::identity;
use crate::split;
use crate::split::words_of;
use crate::text;
use crate::text::{has_prefix, to_lower, CharSet};

verus! {

/// How many words of a command line count.
pub const FLAG_WORDS: usize = 8;

/// The words that begin with a hyphen, each behind a bar.
pub open spec fn flag_text(words: Seq<Seq<char>>) -> Seq<char>
    decreases words.len(),
{
    if words.len() == 0 {
        Seq::empty()
    } else {
        let before = flag_text(words.drop_last());
        if text::starts_with(words.last(), "-"@) {
            before + "|"@ + words.last()
        } else {
            before
        }
    }
}

/// The words of a command line that count.
pub open spec fn counted_words(cmdline: Option<Seq<char>>) -> Seq<Seq<char>> {
    match cmdline {
        Some(c) => {
            let w = split::words(c);
            w.take(if w.len() < FLAG_WORDS {
                w.len() as int
            } else {
                FLAG_WORDS as int
            })
        },
        None => Seq::empty(),
    }
}

/// The names of the directory and of the file, in lower case, each behind a bar.
pub open spec fn place_text(place: Option<(Seq<char>, Seq<char>)>) -> Seq<char> {
    match place {
        Some((dir, file)) => "|"@ + text::lower(dir) + "|"@ + text::lower(file),
        None => Seq::empty(),
    }
}

/// What a fingerprint is the digest of: the name of the process in lower case,
/// the name of the executable's directory and of its file, and the flags.
pub open spec fn fingerprint_text(
    name: Seq<char>,
    place: Option<(Seq<char>, Seq<char>)>,
    cmdline: Option<Seq<char>>,
) -> Seq<char> {
    text::lower(name) + place_text(place) + flag_text(counted_words(cmdline))
}

/// The fingerprint: a SHA-256 digest in hexadecimal.
pub open spec fn fingerprint(
    name: Seq<char>,
    place: Option<(Seq<char>, Seq<char>)>,
    cmdline: Option<Seq<char>>,
) -> Seq<char> {
    digest::text_digest(fingerprint_text(name, place, cmdline))
}

/// The name of a component: none for the directory itself and for the one above.
pub open spec fn named(segment: Seq<char>) -> Option<Seq<char>> {
    if segment == "."@ || segment == ".."@ {
        None
    } else {
        Some(segment)
    }
}

/// The components of a path whose segments the characters of `set` part. The root
/// is one without a name. Empty segments do not count, nor does a dot but at the
/// beginning.
pub open spec fn components(path: Seq<char>, set: CharSet) -> Seq<Option<Seq<char>>>
    decreases path.len(),
{
    match split::last_in(path, set) {
        None => if path.len() == 0 {
            Seq::empty()
        } else {
            seq![named(path)]
        },
        Some(i) => {
            let before = if i == 0 {
                seq![None]
            } else if 0 < i < path.len() {
                components(path.take(i), set)
            } else {
                Seq::empty()
            };
            let segment = path.skip(i + 1);
            if segment.len() == 0 || segment == "."@ {
                before
            } else {
                before.push(named(segment))
            }
        },
    }
}

/// The path begins with two slashes: some systems take that for more than a
/// directory.
pub open spec fn begins_doubled(path: Seq<char>) -> bool {
    path.len() >= 2 && CharSet::AnySlash.has(path[0]) && CharSet::AnySlash.has(path[1])
}

/// The path begins with a letter and a colon, which is a drive where there are
/// drives.
pub open spec fn has_drive(path: Seq<char>) -> bool {
    path.len() >= 2 && path[1] == ':' && ('a' <= path[0] <= 'z' || 'A' <= path[0] <= 'Z')
}

/// The components where slashes part segments, and nothing else does.
pub open spec fn slash_reading(path: Seq<char>) -> Seq<Option<Seq<char>>> {
    components(path, CharSet::Slash)
}

/// The components where slashes and backslashes part segments, and there are
/// drives: a drive is a component without a name.
pub open spec fn drive_reading(path: Seq<char>) -> Seq<Option<Seq<char>>> {
    if has_drive(path) {
        seq![None::<Seq<char>>] + components(path.skip(2), CharSet::AnySlash)
    } else {
        components(path, CharSet::AnySlash)
    }
}

/// These can be the components of a path: it is read in one of two ways, which
/// depends on the system. Of a path that begins with two slashes only that is
/// said that the names stand in it.
pub open spec fn reading_of(path: Seq<char>, c: Seq<Option<Seq<char>>>) -> bool {
    if begins_doubled(path) {
        forall|i: int| 0 <= i < c.len() && #[trigger] c[i] is Some ==> text::contains(path, c[i]->0)
    } else {
        c == slash_reading(path) || c == drive_reading(path)
    }
}

/// The names of the directory and of the file, from the components of a path: a
/// file without a name has the name of the process, and a directory without one
/// an empty text.
pub open spec fn place_in(c: Seq<Option<Seq<char>>>, name: Seq<char>) -> (Seq<char>, Seq<char>) {
    let n = c.len() as int;
    (
        if n >= 2 && c[n - 2] is Some {
            c[n - 2]->0
        } else {
            Seq::empty()
        },
        if n >= 1 && c[n - 1] is Some {
            c[n - 1]->0
        } else {
            name
        },
    )
}

/// `place` can be where the executable of `p` lies: there is a place if there is
/// a path, and it is the one that a reading of the path gives.
pub open spec fn place_of(
    p: identity::ProcessView,
    place: Option<(Seq<char>, Seq<char>)>,
) -> bool {
    match p.exe_path {
        Some(path) => exists|c: Seq<Option<Seq<char>>>|
            (#[trigger] reading_of(path, c)) && place == Some(place_in(c, p.name)),
        None => place is None,
    }
}

/// `f` can be the fingerprint of `p`.
pub open spec fn fingerprint_of(p: identity::ProcessView, f: Seq<char>) -> bool {
    exists|place: Option<(Seq<char>, Seq<char>)>|
        place_of(p, place) && f == #[trigger] fingerprint(p.name, place, p.cmdline)
}

/// The values of components.
pub open spec fn component_views(s: Seq<Option<String>>) -> Seq<Option<Seq<char>>> {
    s.map_values(|c: Option<String>| text::opt_view(c))
}

/// `std::path::Path::components`, with the names of those that have one: slashes
/// part them, repeated ones and dots but for one at the beginning do not count,
/// and the root, a drive and the directory above have no name. Whether backslashes
/// part components too and there are drives depends on the system the program is
/// built for, so the result is one of two. What two slashes at the beginning mean
/// depends on it as well; of such paths only that is said that the names stand in
/// the path.
#[verifier::external_body]
fn components_of(path: &str) -> (r: Vec<Option<String>>)
    ensures
        reading_of(path@, component_views(r@)),
{
    std::path::Path::new(path)
        .components()
        .map(|c| match c {
            std::path::Component::Prefix(_) => None,
            std::path::Component::RootDir => None,
            std::path::Component::CurDir => None,
            std::path::Component::ParentDir => None,
            std::path::Component::Normal(name) => name.to_str().map(String::from),
        })
        .collect()
}

/// The names of the directory and of the file, from the components of a path.
fn place_from(c: &Vec<Option<String>>, name: &String) -> (r: (String, String))
    ensures
        (r.0@, r.1@) == place_in(component_views(c@), name@),
{
    let n: usize = c.len();
    let ghost v = component_views(c@);
    assert(forall|i: int| 0 <= i < n ==> #[trigger] v[i] == text::opt_view(c@[i]));
    let dir = if n >= 2 {
        assert(v[n - 2] == text::opt_view(c@[n - 2]));
        match &c[n - 2] {
            Some(d) => d.clone(),
            None => String::new(),
        }
    } else {
        String::new()
    };
    let file = if n >= 1 {
        assert(v[n - 1] == text::opt_view(c@[n - 1]));
        match &c[n - 1] {
            Some(f) => f.clone(),
            None => name.clone(),
        }
    } else {
        name.clone()
    };
    (dir, file)
}

/// The fingerprint of a process with this name, place and command line.
pub fn fingerprint_parts(
    name: &str,
    place: Option<(&str, &str)>,
    cmdline: Option<&str>,
) -> (r: String)
    ensures
        r@ == fingerprint(
            name@,
            match place {
                Some((dir, file)) => Some((dir@, file@)),
                None => None,
            },
            match cmdline {
                Some(c) => Some(c@),
                None => None,
            },
        ),
        r@.len() == 64,
        forall|i: int| 0 <= i < r@.len() ==> digest::is_hex_digit(#[trigger] r@[i]),
{
    let ghost place_view = match place {
        Some((dir, file)) => Some((dir@, file@)),
        None => None,
    };
    let ghost cmd_view = match cmdline {
        Some(c) => Some(c@),
        None => None,
    };
    let mut t = to_lower(name);
    if let Some((dir, file)) = place {
        let d = to_lower(dir);
        let f = to_lower(file);
        t.append("|");
        t.append(d.as_str());
        t.append("|");
        t.append(f.as_str());
    }
    let ghost head = text::lower(name@) + place_text(place_view);
    assert(t@ == head);
    if let Some(c) = cmdline {
        let words = words_of(c);
        let n: usize = if words.len() < FLAG_WORDS {
            words.len()
        } else {
            FLAG_WORDS
        };
        let ghost all = text::views(words@);
        let mut i: usize = 0;
        assert(head + flag_text(all.take(0)) == head);
        while i < n
            invariant
                i <= n <= words@.len(),
                all == text::views(words@),
                t@ == head + flag_text(all.take(i as int)),
            decreases n - i,
        {
            let w = &words[i];
            assert(all.take(i + 1).drop_last() == all.take(i as int));
            assert(all.take(i + 1).last() == w@);
            if has_prefix(w.as_str(), "-") {
                t.append("|");
                t.append(w.as_str());
                assert(t@ == head + (flag_text(all.take(i as int)) + "|"@ + w@));
            }
            i = i + 1;
        }
        assert(all.take(n as int) == counted_words(cmd_view));
    } else {
        assert(head + flag_text(counted_words(cmd_view)) == head);
    }
    assert(t@ == fingerprint_text(name@, place_view, cmd_view));
    text_digest_of(t.as_str())
}

/// The fingerprint of a process: 64 hexadecimal digits.
pub fn fingerprint_process(proc: &ProcessSnapshot) -> (r: String)
    ensures
        fingerprint_of(proc@, r@),
        r@.len() == 64,
        forall|i: int| 0 <= i < r@.len() ==> digest::is_hex_digit(#[trigger] r@[i]),
{
    let cmdline: Option<&str> = match &proc.cmdline {
        Some(c) => Some(c.as_str()),
        None => None,
    };
    match &proc.exe_path {
        Some(path) => {
            let c = components_of(path.as_str());
            let (dir, file) = place_from(&c, &proc.name);
            let r = fingerprint_parts(
                proc.name.as_str(),
                Some((dir.as_str(), file.as_str())),
                cmdline,
            );
            let ghost place = Some((dir@, file@));
            assert(proc@.exe_path == Some(path@));
            let ghost cv = component_views(c@);
            assert(reading_of(proc@.exe_path->0, cv) && place == Some(place_in(cv, proc@.name)));
            assert(place_of(proc@, place));
            assert(r@ == fingerprint(proc@.name, place, proc@.cmdline));
            r
        },
        None => {
            let r = fingerprint_parts(proc.name.as_str(), None, cmdline);
            assert(place_of(proc@, None));
            assert(r@ == fingerprint(proc@.name, None, proc@.cmdline));
            r
        },
    }
}

/// A fingerprint shows nothing of a process but its name, the names of its
/// directory and file, and its flags: two processes that agree in these, up to
/// ASCII case in the names, have the same fingerprint. Nothing else of the path
/// or of the command line counts.
pub proof fn law_fingerprint_is_private(
    name: Seq<char>,
    dir: Seq<char>,
    file: Seq<char>,
    cmdline: Option<Seq<char>>,
    other_name: Seq<char>,
    other_dir: Seq<char>,
    other_file: Seq<char>,
    other_cmdline: Option<Seq<char>>,
)
    requires
        text::same_letters(name, other_name),
        text::same_letters(dir, other_dir),
        text::same_letters(file, other_file),
        flag_text(counted_words(cmdline)) == flag_text(counted_words(other_cmdline)),
    ensures
        fingerprint(name, Some((dir, file)), cmdline) == fingerprint(
            other_name,
            Some((other_dir, other_file)),
            other_cmdline,
        ),
{
}

/// A name that is one component of a path on every system: it has no slash of
/// either kind, and stands neither for a directory itself nor for the one above.
pub open spec fn plain_name(s: Seq<char>) -> bool {
    &&& s.len() > 0
    &&& s != "."@
    &&& s != ".."@
    &&& forall|i: int| 0 <= i < s.len() ==> !CharSet::AnySlash.has(#[trigger] s[i])
}

/// The path ends with the name of a directory and of a file, each behind a slash of
/// either kind.
pub open spec fn lies_in(
    path: Seq<char>,
    above: Seq<char>,
    slash: char,
    dir: Seq<char>,
    other_slash: char,
    file: Seq<char>,
) -> bool {
    &&& path == above.push(slash) + dir.push(other_slash) + file
    &&& CharSet::AnySlash.has(slash)
    &&& CharSet::AnySlash.has(other_slash)
    &&& plain_name(dir)
    &&& plain_name(file)
    &&& !begins_doubled(path)
}

/// The last component of a path is what follows its last slash.
proof fn lemma_last_component(above: Seq<char>, slash: char, name: Seq<char>, set: CharSet)
    requires
        set == CharSet::Slash || set == CharSet::AnySlash,
        set.has(slash),
        plain_name(name),
    ensures
        components(above.push(slash) + name, set) == (if above.len() == 0 {
            seq![None]
        } else {
            components(above, set)
        }).push(Some(name)),
{
    let path = above.push(slash) + name;
    let n = above.len() as int;
    split::lemma_last_in(path, set);
    assert(path[n] == slash);
    assert forall|j: int| n < j < path.len() implies !set.has(#[trigger] path[j]) by {
        assert(path[j] == name[j - n - 1]);
        assert(!CharSet::AnySlash.has(name[j - n - 1]));
    }
    assert(split::last_in(path, set) == Some(n));
    assert(path.take(n) == above);
    assert(path.skip(n + 1) == name);
}

/// The two last components of a path that ends with a directory and a file.
proof fn lemma_two_last(
    above: Seq<char>,
    slash: char,
    dir: Seq<char>,
    other_slash: char,
    file: Seq<char>,
    set: CharSet,
    name: Seq<char>,
)
    requires
        set == CharSet::Slash || set == CharSet::AnySlash,
        set.has(slash),
        set.has(other_slash),
        plain_name(dir),
        plain_name(file),
    ensures
        place_in(
            components(above.push(slash) + dir.push(other_slash) + file, set),
            name,
        ) == (dir, file),
        components(above.push(slash) + dir.push(other_slash) + file, set).len() >= 2,
{
    let parent = above.push(slash) + dir;
    assert(above.push(slash) + dir.push(other_slash) + file == parent.push(other_slash) + file);
    lemma_last_component(above, slash, dir, set);
    lemma_last_component(parent, other_slash, file, set);
}

/// The place by the reading with drives of a path that ends with a directory and a
/// file.
proof fn lemma_drive_place(
    path: Seq<char>,
    above: Seq<char>,
    slash: char,
    dir: Seq<char>,
    other_slash: char,
    file: Seq<char>,
    name: Seq<char>,
)
    requires
        lies_in(path, above, slash, dir, other_slash, file),
    ensures
        place_in(drive_reading(path), name) == (dir, file),
{
    let set = CharSet::AnySlash;
    lemma_two_last(above, slash, dir, other_slash, file, set, name);
    if has_drive(path) {
        let n = above.len() as int;
        assert(path[n] == slash);
        assert(n != 0 && n != 1);
        let rest = above.skip(2);
        assert(path.skip(2) == rest.push(slash) + dir.push(other_slash) + file);
        lemma_two_last(rest, slash, dir, other_slash, file, set, name);
        let c = components(path.skip(2), set);
        let all = seq![None::<Seq<char>>] + c;
        assert(all[all.len() - 1] == c[c.len() - 1] && all[all.len() - 2] == c[c.len() - 2]);
    }
}

/// Where the path of a process ends with a directory and a file, its fingerprint is
/// the digest of their names, whatever stands above them: it does not give away
/// where the game is installed. Only where a backslash parts them, and only on a
/// system where a backslash parts nothing, the names that slashes part count
/// instead.
pub proof fn law_place_is_hidden(
    p: identity::ProcessView,
    above: Seq<char>,
    slash: char,
    dir: Seq<char>,
    other_slash: char,
    file: Seq<char>,
    f: Seq<char>,
)
    requires
        p.exe_path is Some,
        lies_in(p.exe_path->0, above, slash, dir, other_slash, file),
        fingerprint_of(p, f),
    ensures
        f == fingerprint(p.name, Some((dir, file)), p.cmdline) || f == fingerprint(
            p.name,
            Some(place_in(slash_reading(p.exe_path->0), p.name)),
            p.cmdline,
        ),
        slash == '/' && other_slash == '/' ==> f == fingerprint(
            p.name,
            Some((dir, file)),
            p.cmdline,
        ),
{
    let path = p.exe_path->0;
    lemma_drive_place(path, above, slash, dir, other_slash, file, p.name);
    if slash == '/' && other_slash == '/' {
        lemma_two_last(above, slash, dir, other_slash, file, CharSet::Slash, p.name);
    }
    let place = choose|place: Option<(Seq<char>, Seq<char>)>|
        place_of(p, place) && f == #[trigger] fingerprint(p.name, place, p.cmdline);
    let c = choose|c: Seq<Option<Seq<char>>>|
        (#[trigger] reading_of(path, c)) && place == Some(place_in(c, p.name));
    assert(c == slash_reading(path) || c == drive_reading(path));
}

/// Two processes that agree in their names, in the names of directory and file and
/// in their flags, up to ASCII case in the names, have the same fingerprint,
/// wherever they are installed.
pub proof fn law_same_place_same_fingerprint(
    a: identity::ProcessView,
    above: Seq<char>,
    dir: Seq<char>,
    file: Seq<char>,
    f: Seq<char>,
    b: identity::ProcessView,
    other_above: Seq<char>,
    other_dir: Seq<char>,
    other_file: Seq<char>,
    g: Seq<char>,
)
    requires
        a.exe_path is Some,
        b.exe_path is Some,
        lies_in(a.exe_path->0, above, '/', dir, '/', file),
        lies_in(b.exe_path->0, other_above, '/', other_dir, '/', other_file),
        fingerprint_of(a, f),
        fingerprint_of(b, g),
        text::same_letters(a.name, b.name),
        text::same_letters(dir, other_dir),
        text::same_letters(file, other_file),
        flag_text(counted_words(a.cmdline)) == flag_text(counted_words(b.cmdline)),
    ensures
        f == g,
{
    law_place_is_hidden(a, above, '/', dir, '/', file, f);
    law_place_is_hidden(b, other_above, '/', other_dir, '/', other_file, g);
    law_fingerprint_is_private(
        a.name,
        dir,
        file,
        a.cmdline,
        b.name,
        other_dir,
        other_file,
        b.cmdline,
    );
}

/// The components of a path, read with drives or by slashes alone.
pub open spec fn read_by(path: Seq<char>, drives: bool) -> Seq<Option<Seq<char>>> {
    if drives {
        drive_reading(path)
    } else {
        slash_reading(path)
    }
}

/// Where the executable of a process lies by one reading of its path; nowhere
/// without a path.
pub open spec fn place_by(p: identity::ProcessView, drives: bool) -> Option<
    (Seq<char>, Seq<char>),
> {
    match p.exe_path {
        Some(path) => Some(place_in(read_by(path, drives), p.name)),
        None => None,
    }
}

/// The fingerprint of a process by one reading of its path.
pub open spec fn fingerprint_by(p: identity::ProcessView, drives: bool) -> Seq<char> {
    fingerprint(p.name, place_by(p, drives), p.cmdline)
}

/// Neither process has a path, or both have one, with the same names of directory
/// and file up to ASCII case.
pub open spec fn lie_alike(
    a: Option<(Seq<char>, Seq<char>)>,
    b: Option<(Seq<char>, Seq<char>)>,
) -> bool {
    match (a, b) {
        (Some((dir, file)), Some((other_dir, other_file))) => text::same_letters(dir, other_dir)
            && text::same_letters(file, other_file),
        (None, None) => true,
        _ => false,
    }
}

/// On a system with drives and on one without, two processes that agree in their
/// names and in the names of directory and file, up to ASCII case, and in the
/// flags among the words that count, have the same fingerprint: whatever else
/// stands in their paths and command lines, and if neither has a path.
pub proof fn law_read_alike_same_fingerprint(
    a: identity::ProcessView,
    b: identity::ProcessView,
    drives: bool,
)
    requires
        text::same_letters(a.name, b.name),
        lie_alike(place_by(a, drives), place_by(b, drives)),
        flag_text(counted_words(a.cmdline)) == flag_text(counted_words(b.cmdline)),
    ensures
        fingerprint_by(a, drives) == fingerprint_by(b, drives),
{
}

/// The fingerprint of a process is that by one of the two readings, unless its path
/// begins with two slashes.
pub proof fn law_read_one_way(p: identity::ProcessView, f: Seq<char>)
    requires
        p.exe_path is Some ==> !begins_doubled(p.exe_path->0),
    ensures
        fingerprint_of(p, f) == (f == fingerprint_by(p, true) || f == fingerprint_by(p, false)),
{
    if fingerprint_of(p, f) {
        let place = choose|place: Option<(Seq<char>, Seq<char>)>|
            place_of(p, place) && f == #[trigger] fingerprint(p.name, place, p.cmdline);
        if p.exe_path is Some {
            let path = p.exe_path->0;
            let c = choose|c: Seq<Option<Seq<char>>>|
                (#[trigger] reading_of(path, c)) && place == Some(place_in(c, p.name));
            assert(c == read_by(path, true) || c == read_by(path, false));
        }
    }
    if p.exe_path is Some {
        let path = p.exe_path->0;
        assert(reading_of(path, read_by(path, true)));
        assert(reading_of(path, read_by(path, false)));
    }
    assert(place_of(p, place_by(p, true)));
    assert(place_of(p, place_by(p, false)));
}

/// Without a backslash both kinds of slashes part the same.
proof fn lemma_no_backslash(path: Seq<char>)
    requires
        forall|i: int| 0 <= i < path.len() ==> path[i] != '\\',
    ensures
        components(path, CharSet::Slash) == components(path, CharSet::AnySlash),
    decreases path.len(),
{
    split::lemma_last_in(path, CharSet::Slash);
    split::lemma_last_in(path, CharSet::AnySlash);
    let i = split::last_in(path, CharSet::Slash);
    let j = split::last_in(path, CharSet::AnySlash);
    if i is Some && j is Some {
        assert(CharSet::AnySlash.has(path[i->0]));
        assert(CharSet::Slash.has(path[j->0]));
    } else if i is Some {
        assert(CharSet::AnySlash.has(path[i->0]));
    } else if j is Some {
        assert(CharSet::Slash.has(path[j->0]));
    }
    assert(i == j);
    if i is Some && i->0 > 0 {
        lemma_no_backslash(path.take(i->0));
    }
}

/// A process has one fingerprint, where its path has no backslash, no drive and not
/// two slashes at the beginning, or where it has no path.
pub proof fn law_fingerprint_is_stable(p: identity::ProcessView, f: Seq<char>, g: Seq<char>)
    requires
        fingerprint_of(p, f),
        fingerprint_of(p, g),
        p.exe_path is Some ==> {
            &&& forall|i: int|
                0 <= i < p.exe_path->0.len() ==> #[trigger] p.exe_path->0[i] != '\\'
            &&& !has_drive(p.exe_path->0)
            &&& !begins_doubled(p.exe_path->0)
        },
    ensures
        f == g,
{
    if p.exe_path is Some {
        lemma_no_backslash(p.exe_path->0);
    }
}

} // verus!
