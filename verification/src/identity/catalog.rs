//! The user's own catalog of games, matched by executable name.

use vstd::prelude::*;

use super::{Confidence, GameIdentity, ProcessSnapshot};
use crate::host::{current_os_label, HostOs};
use crate::identity;
use crate::search;
use crate::text;
use crate::text::{has_text, join2, same, text_or_empty, to_lower};

verus! {

/// An executable of a catalogued game.
#[derive(Debug)]
pub struct CatalogExecutable {
    pub os: String,
    pub name: String,
    pub is_launcher: bool,
}

impl Clone for CatalogExecutable {
    fn clone(&self) -> (r: Self)
        ensures
            r == *self,
    {
        CatalogExecutable {
            os: self.os.clone(),
            name: self.name.clone(),
            is_launcher: self.is_launcher,
        }
    }
}

/// A catalogued game.
#[derive(Debug)]
pub struct CatalogEntry {
    pub id: String,
    pub name: String,
    pub executables: Vec<CatalogExecutable>,
    pub path_hints: Vec<String>,
    pub arguments: Option<String>,
}

/// The catalog. Of entries that match equally well, the first wins.
#[derive(Debug)]
pub struct LocalCatalog {
    pub entries: Vec<CatalogEntry>,
}

/// A process of this name runs this executable: it is no launcher, is for this
/// system, and has the name, with or without `.exe`, up to ASCII case.
pub open spec fn runs(e: CatalogExecutable, name: Seq<char>, os: Seq<char>) -> bool {
    &&& e.os@ == os
    &&& !e.is_launcher
    &&& (text::lower(name) == text::lower(e.name@) || text::lower(name) == text::lower(e.name@)
        + ".exe"@)
}

/// One of the hints stands in the path, up to ASCII case.
pub open spec fn hinted(hints: Seq<String>, path: Seq<char>) -> bool {
    exists|i: int|
        0 <= i < hints.len() && text::contains(text::lower(path), text::lower(#[trigger] hints[i]@))
}

/// A text that is not there is empty.
pub open spec fn text_of(s: Option<Seq<char>>) -> Seq<char> {
    match s {
        Some(t) => t,
        None => Seq::empty(),
    }
}

/// How well an entry fits a process: not at all unless the process runs one of
/// its executables and has the entry's arguments in its command line; medium
/// where there are arguments or where a path hint fits; else low.
pub open spec fn entry_confidence(
    e: CatalogEntry,
    p: identity::ProcessView,
    os: Seq<char>,
) -> Option<Confidence> {
    if !exists|i: int|
        0 <= i < e.executables@.len() && runs(#[trigger] e.executables@[i], p.name, os) {
        None
    } else {
        match e.arguments {
            Some(args) => if text::contains(
                text::lower(text_of(p.cmdline)),
                text::lower(args@),
            ) {
                Some(Confidence::Medium)
            } else {
                None
            },
            None => if hinted(e.path_hints@, text_of(p.exe_path)) {
                Some(Confidence::Medium)
            } else {
                Some(Confidence::Low)
            },
        }
    }
}

/// The first entry that fits with this confidence.
pub open spec fn first_fit(
    entries: Seq<CatalogEntry>,
    p: identity::ProcessView,
    os: Seq<char>,
    c: Confidence,
) -> Option<int> {
    search::first_where(entries, |e: CatalogEntry| entry_confidence(e, p, os) == Some(c))
}

/// The identity that an entry gives.
pub open spec fn entry_identity(
    e: CatalogEntry,
    name: Seq<char>,
    c: Confidence,
) -> identity::IdentityView {
    identity::IdentityView {
        id: "catalog:"@ + e.id@,
        title: e.name@,
        steam_app_id: None,
        exe: Some(name),
        confidence: c,
        source: "catalog"@,
        fingerprint: None,
    }
}

/// The identity that the catalog gives a process: that of the first entry with
/// medium confidence, or else of the first with low confidence.
pub open spec fn catalog_match(
    entries: Seq<CatalogEntry>,
    p: identity::ProcessView,
    os: Seq<char>,
) -> Option<identity::IdentityView> {
    match first_fit(entries, p, os, Confidence::Medium) {
        Some(i) => Some(entry_identity(entries[i], p.name, Confidence::Medium)),
        None => match first_fit(entries, p, os, Confidence::Low) {
            Some(i) => Some(entry_identity(entries[i], p.name, Confidence::Low)),
            None => None,
        },
    }
}

fn runs_any(exes: &Vec<CatalogExecutable>, name: &str, os: &str) -> (r: bool)
    ensures
        r == exists|i: int| 0 <= i < exes@.len() && runs(#[trigger] exes@[i], name@, os@),
{
    let pname = to_lower(name);
    let mut i: usize = 0;
    while i < exes.len()
        invariant
            i <= exes@.len(),
            pname@ == text::lower(name@),
            forall|j: int| 0 <= j < i ==> !runs(#[trigger] exes@[j], name@, os@),
        decreases exes.len() - i,
    {
        let e = &exes[i];
        if same(e.os.as_str(), os) && !e.is_launcher {
            let plain = to_lower(e.name.as_str());
            let with_exe = join2(plain.as_str(), ".exe");
            if same(pname.as_str(), plain.as_str()) || same(pname.as_str(), with_exe.as_str()) {
                assert(runs(exes@[i as int], name@, os@));
                return true;
            }
        }
        i = i + 1;
    }
    false
}

fn any_hint(hints: &Vec<String>, path: &str) -> (r: bool)
    ensures
        r == hinted(hints@, path@),
{
    let low = to_lower(path);
    let mut i: usize = 0;
    while i < hints.len()
        invariant
            i <= hints@.len(),
            low@ == text::lower(path@),
            forall|j: int|
                0 <= j < i ==> !text::contains(
                    text::lower(path@),
                    text::lower(#[trigger] hints@[j]@),
                ),
        decreases hints.len() - i,
    {
        let h = to_lower(hints[i].as_str());
        if has_text(low.as_str(), h.as_str()) {
            assert(text::contains(text::lower(path@), text::lower(hints@[i as int]@)));
            return true;
        }
        i = i + 1;
    }
    false
}

impl CatalogEntry {
    /// How well the entry fits a process.
    fn confidence_for(&self, proc: &ProcessSnapshot, os: &str) -> (r: Option<Confidence>)
        ensures
            r == entry_confidence(*self, proc@, os@),
    {
        if !runs_any(&self.executables, proc.name.as_str(), os) {
            return None;
        }
        match &self.arguments {
            Some(args) => {
                let cmd = text_or_empty(&proc.cmdline);
                let low = to_lower(cmd.as_str());
                let wanted = to_lower(args.as_str());
                if has_text(low.as_str(), wanted.as_str()) {
                    Some(Confidence::Medium)
                } else {
                    None
                }
            },
            None => {
                let path = text_or_empty(&proc.exe_path);
                if any_hint(&self.path_hints, path.as_str()) {
                    Some(Confidence::Medium)
                } else {
                    Some(Confidence::Low)
                }
            },
        }
    }

    fn identity(&self, proc: &ProcessSnapshot, confidence: Confidence) -> (r: GameIdentity)
        ensures
            r@ == entry_identity(*self, proc.name@, confidence),
    {
        GameIdentity {
            id: join2("catalog:", self.id.as_str()),
            title: self.name.clone(),
            steam_app_id: None,
            exe: Some(proc.name.clone()),
            confidence,
            source: "catalog".to_owned(),
            fingerprint: None,
        }
    }
}

impl LocalCatalog {
    /// A catalog without entries.
    pub fn empty() -> (r: Self)
        ensures
            r.entries@.len() == 0,
    {
        LocalCatalog { entries: Vec::new() }
    }

    /// The identity that the catalog gives a process on `host`.
    pub fn match_process(&self, proc: &ProcessSnapshot, host: HostOs) -> (r: Option<GameIdentity>)
        ensures
            match r {
                Some(id) => catalog_match(self.entries@, proc@, host.catalog_label()) == Some(id@),
                None => catalog_match(self.entries@, proc@, host.catalog_label()) is None,
            },
    {
        let os = current_os_label(host);
        let ghost medium = |e: CatalogEntry|
            entry_confidence(e, proc@, os@) == Some(Confidence::Medium);
        let ghost low = |e: CatalogEntry|
            entry_confidence(e, proc@, os@) == Some(Confidence::Low);
        let mut bare: Option<usize> = None;
        let mut i: usize = 0;
        while i < self.entries.len()
            invariant
                i <= self.entries@.len(),
                os@ == host.catalog_label(),
                medium == (|e: CatalogEntry|
                    entry_confidence(e, proc@, os@) == Some(Confidence::Medium)),
                low == (|e: CatalogEntry|
                    entry_confidence(e, proc@, os@) == Some(Confidence::Low)),
                forall|j: int| 0 <= j < i ==> !medium(#[trigger] self.entries@[j]),
                match bare {
                    Some(b) => b < i && low(self.entries@[b as int]) && forall|j: int|
                        0 <= j < b ==> !low(#[trigger] self.entries@[j]),
                    None => forall|j: int| 0 <= j < i ==> !low(#[trigger] self.entries@[j]),
                },
            decreases self.entries.len() - i,
        {
            match self.entries[i].confidence_for(proc, os) {
                Some(Confidence::Medium) => {
                    proof {
                        search::lemma_first_is(self.entries@, medium, i as int);
                    }
                    return Some(self.entries[i].identity(proc, Confidence::Medium));
                },
                Some(_) => {
                    if bare.is_none() {
                        bare = Some(i);
                    }
                },
                None => {},
            }
            i = i + 1;
        }
        proof {
            search::lemma_first_where(self.entries@, medium);
            search::lemma_first_where(self.entries@, low);
        }
        match bare {
            Some(b) => {
                proof {
                    search::lemma_first_is(self.entries@, low, b as int);
                }
                Some(self.entries[b].identity(proc, Confidence::Low))
            },
            None => None,
        }
    }
}

/// The catalog never gives high confidence, and gives more than low confidence
/// only where the entry asks for arguments that the command line has, or has a
/// hint that stands in the path.
pub proof fn law_bare_name_is_low(
    e: CatalogEntry,
    p: identity::ProcessView,
    os: Seq<char>,
)
    ensures
        entry_confidence(e, p, os) != Some(Confidence::High),
        entry_confidence(e, p, os) == Some(Confidence::Medium) ==> e.arguments is Some || hinted(
            e.path_hints@,
            text_of(p.exe_path),
        ),
{
}

} // verus!
