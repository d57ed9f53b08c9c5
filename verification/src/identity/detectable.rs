//! The Discord catalog of detectable applications: building it, matching
//! processes against it, and when to download it again.

use vstd::prelude::*;

use super::{Confidence, GameIdentity, ProcessSnapshot};
use crate::host::{current_discord_os, HostOs};
use crate::identity;
use crate::number;
use crate::number::parse_u32_of;
use crate::search;
use crate::split;
use crate::split::last_in_text;
use crate::text;
use crate::text::{
    has_suffix, has_text, join2, same, same_ignoring_case, text_from, to_lower, trim_of,
    with_char_swapped, CharSet,
};

verus! {

/// How long a downloaded catalog is used, in seconds.
pub const DETECTABLE_MAX_AGE: u64 = 86_400;

/// Where and when (in Unix seconds) the catalog on disk was downloaded.
#[derive(Debug)]
pub struct DetectableMeta {
    pub url: String,
    pub fetched_at: u64,
}

/// The same game at another shop.
#[derive(Debug)]
pub struct DetectableSku {
    pub distributor: Option<String>,
    pub id: Option<String>,
}

/// An executable of a listed game: a file name, or the end of a path.
#[derive(Debug)]
pub struct DetectableExecutable {
    pub os: String,
    pub name: String,
    pub is_launcher: bool,
}

/// A listed game.
#[derive(Debug)]
pub struct DetectableEntry {
    pub id: String,
    pub name: String,
    pub executables: Vec<DetectableExecutable>,
    pub third_party_skus: Vec<DetectableSku>,
}

#[derive(Debug)]
struct IndexedPattern {
    /// With slashes and in lower case.
    pattern: String,
    /// The last segment of the pattern.
    basename: String,
    entry_idx: usize,
}

#[derive(Debug)]
struct IndexedEntry {
    id: String,
    title: String,
    steam_app_id: Option<u32>,
}

/// The mathematical value of a listed game in the catalog.
#[verifier::ext_equal]
pub struct ListedView {
    pub id: Seq<char>,
    pub title: Seq<char>,
    pub steam_app_id: Option<u32>,
}

/// The mathematical value of a pattern in the catalog.
#[verifier::ext_equal]
pub struct PatternView {
    pub pattern: Seq<char>,
    pub entry: int,
}

/// The mathematical value of a catalog: the games, and the patterns that lead
/// to them, in the order in which they are listed.
#[verifier::ext_equal]
pub struct DetectableView {
    pub entries: Seq<ListedView>,
    pub patterns: Seq<PatternView>,
}

/// The catalog of detectable applications of one system.
#[derive(Debug)]
pub struct DetectableCatalog {
    entries: Vec<IndexedEntry>,
    patterns: Vec<IndexedPattern>,
}

// ---------------------------------------------------------------------------
// Patterns
// ---------------------------------------------------------------------------

/// A path without white space around it, with slashes and in lower case.
pub open spec fn normal_path(s: Seq<char>) -> Seq<char> {
    text::lower(text::swap_char(text::trim(s, CharSet::White), '\\', '/'))
}

fn normalize_path(s: &str) -> (r: String)
    ensures
        r@ == normal_path(s@),
{
    let t = trim_of(s, CharSet::White);
    let slashed = with_char_swapped(t.as_str(), '\\', '/');
    to_lower(slashed.as_str())
}

/// The last segment of a path.
pub open spec fn base_name(pattern: Seq<char>) -> Seq<char> {
    match split::last_in(pattern, CharSet::Slash) {
        Some(i) => pattern.skip(i + 1),
        None => pattern,
    }
}

fn pattern_basename(pattern: &str) -> (r: String)
    ensures
        r@ == base_name(pattern@),
{
    let n: usize = pattern.unicode_len();
    match last_in_text(pattern, CharSet::Slash) {
        Some(i) => {
            assert(i < n);
            text_from(pattern, i + 1)
        },
        None => pattern.to_owned(),
    }
}

/// A pattern fits a process with the lower-case name `name` and the normal path
/// `path`: the name is its last segment and, where it has a slash, the path
/// ends with it at a segment.
pub open spec fn pattern_fits(pattern: Seq<char>, name: Seq<char>, path: Seq<char>) -> bool {
    &&& name == base_name(pattern)
    &&& text::contains(pattern, "/"@) ==> path.len() > 0 && (path == pattern || text::ends_with(
        path,
        "/"@ + pattern,
    ))
}

impl IndexedPattern {
    spec fn listed(self) -> PatternView {
        PatternView { pattern: self.pattern@, entry: self.entry_idx as int }
    }

    fn fits(&self, name: &str, path: &str) -> (r: bool)
        requires
            self.basename@ == base_name(self.pattern@),
        ensures
            r == pattern_fits(self.pattern@, name@, path@),
    {
        if !same(name, self.basename.as_str()) {
            return false;
        }
        if !has_text(self.pattern.as_str(), "/") {
            return true;
        }
        if path.unicode_len() == 0 {
            return false;
        }
        let tail = join2("/", self.pattern.as_str());
        same(path, self.pattern.as_str()) || has_suffix(path, tail.as_str())
    }
}

// ---------------------------------------------------------------------------
// Building
// ---------------------------------------------------------------------------

/// A Steam article.
pub open spec fn is_steam(s: DetectableSku) -> bool {
    s.distributor is Some && text::same_letters(s.distributor->0@, "steam"@)
}

/// The Steam app id of a game: that of its first Steam article.
pub open spec fn steam_sku(skus: Seq<DetectableSku>) -> Option<u32> {
    match search::first_where(skus, |s: DetectableSku| is_steam(s)) {
        Some(i) => match skus[i].id {
            Some(id) => number::parse_u32(id@),
            None => None,
        },
        None => None,
    }
}

fn steam_sku_of(skus: &Vec<DetectableSku>) -> (r: Option<u32>)
    ensures
        r == steam_sku(skus@),
{
    let ghost f = |s: DetectableSku| is_steam(s);
    let mut i: usize = 0;
    while i < skus.len()
        invariant
            i <= skus@.len(),
            f == (|s: DetectableSku| is_steam(s)),
            forall|j: int| 0 <= j < i ==> !f(#[trigger] skus@[j]),
        decreases skus.len() - i,
    {
        if let Some(d) = &skus[i].distributor {
            if same_ignoring_case(d.as_str(), "steam") {
                proof {
                    search::lemma_first_is(skus@, f, i as int);
                }
                return match &skus[i].id {
                    Some(id) => parse_u32_of(id.as_str()),
                    None => None,
                };
            }
        }
        i = i + 1;
    }
    proof {
        search::lemma_first_where(skus@, f);
    }
    None
}

/// The game of an entry.
pub open spec fn listed_view(e: DetectableEntry) -> ListedView {
    ListedView { id: e.id@, title: e.name@, steam_app_id: steam_sku(e.third_party_skus@) }
}

/// The patterns of a game's executables: those for this system that are no
/// launchers and have a name.
pub open spec fn exe_patterns(
    exes: Seq<DetectableExecutable>,
    os: Seq<char>,
    entry: int,
) -> Seq<PatternView>
    decreases exes.len(),
{
    if exes.len() == 0 {
        Seq::empty()
    } else {
        let before = exe_patterns(exes.drop_last(), os, entry);
        let e = exes.last();
        if e.is_launcher || e.os@ != os || normal_path(e.name@).len() == 0 {
            before
        } else {
            before.push(PatternView { pattern: normal_path(e.name@), entry })
        }
    }
}

/// The patterns of all entries.
pub open spec fn all_patterns(raw: Seq<DetectableEntry>, os: Seq<char>) -> Seq<PatternView>
    decreases raw.len(),
{
    if raw.len() == 0 {
        Seq::empty()
    } else {
        all_patterns(raw.drop_last(), os) + exe_patterns(
            raw.last().executables@,
            os,
            raw.len() - 1,
        )
    }
}

/// The catalog of a list of entries.
pub open spec fn catalog_of(raw: Seq<DetectableEntry>, os: Seq<char>) -> DetectableView {
    DetectableView {
        entries: raw.map_values(|e: DetectableEntry| listed_view(e)),
        patterns: all_patterns(raw, os),
    }
}

// ---------------------------------------------------------------------------
// Matching
// ---------------------------------------------------------------------------

/// The identity that a listed game gives.
pub open spec fn listed_identity(
    e: ListedView,
    name: Seq<char>,
    c: Confidence,
) -> identity::IdentityView {
    identity::IdentityView {
        id: "discord:"@ + e.id,
        title: e.title,
        steam_app_id: e.steam_app_id,
        exe: Some(name),
        confidence: c,
        source: "discord"@,
        fingerprint: None,
    }
}

/// The normal path of a process.
pub open spec fn process_path(p: identity::ProcessView) -> Seq<char> {
    match p.exe_path {
        Some(s) => normal_path(s),
        None => Seq::empty(),
    }
}

/// A pattern fits a process.
pub open spec fn fits(pat: PatternView, p: identity::ProcessView) -> bool {
    pattern_fits(pat.pattern, text::lower(p.name), process_path(p))
}

/// Every pattern that fits leads to this entry.
pub open spec fn only_entry(
    patterns: Seq<PatternView>,
    p: identity::ProcessView,
    entry: int,
) -> bool {
    forall|j: int| 0 <= j < patterns.len() && fits(#[trigger] patterns[j], p) ==> patterns[j].entry == entry
}

/// The identity that the catalog gives a process: that of the entry that the
/// first fitting pattern leads to. The confidence is medium where every fitting
/// pattern leads there, else low.
pub open spec fn detectable_match(
    c: DetectableView,
    p: identity::ProcessView,
) -> Option<identity::IdentityView> {
    match search::first_where(c.patterns, |pat: PatternView| fits(pat, p)) {
        None => None,
        Some(i) => {
            let entry = c.patterns[i].entry;
            let conf = if only_entry(c.patterns, p, entry) {
                Confidence::Medium
            } else {
                Confidence::Low
            };
            Some(listed_identity(c.entries[entry], p.name, conf))
        },
    }
}

impl View for DetectableCatalog {
    type V = DetectableView;

    closed spec fn view(&self) -> DetectableView {
        DetectableView {
            entries: self.entries@.map_values(
                |e: IndexedEntry|
                    ListedView { id: e.id@, title: e.title@, steam_app_id: e.steam_app_id },
            ),
            patterns: self.patterns@.map_values(|p: IndexedPattern| p.listed()),
        }
    }
}

impl DetectableCatalog {
    #[verifier::type_invariant]
    spec fn wf(self) -> bool {
        forall|i: int|
            0 <= i < self.patterns@.len() ==> {
                let p = #[trigger] self.patterns@[i];
                p.entry_idx < self.entries@.len() && p.basename@ == base_name(p.pattern@)
            }
    }

    /// A catalog without games.
    pub fn empty() -> (r: Self)
        ensures
            r@ == (DetectableView { entries: Seq::empty(), patterns: Seq::empty() }),
    {
        DetectableCatalog { entries: Vec::new(), patterns: Vec::new() }
    }

    /// Whether there are no games.
    pub fn is_empty(&self) -> (r: bool)
        ensures
            r == (self@.entries.len() == 0),
    {
        self.entries.len() == 0
    }

    /// How many games there are.
    pub fn len(&self) -> (r: usize)
        ensures
            r == self@.entries.len(),
    {
        self.entries.len()
    }

    /// The catalog of `raw` for `host`.
    pub fn from_entries(raw: Vec<DetectableEntry>, host: HostOs) -> (r: Self)
        ensures
            r@ == catalog_of(raw@, host.discord_label()),
    {
        let os = current_discord_os(host);
        let mut entries: Vec<IndexedEntry> = Vec::new();
        let mut patterns: Vec<IndexedPattern> = Vec::new();
        let mut i: usize = 0;
        while i < raw.len()
            invariant
                i <= raw@.len(),
                os@ == host.discord_label(),
                entries@.len() == i,
                forall|k: int|
                    0 <= k < i ==> {
                        let e = #[trigger] entries@[k];
                        ListedView { id: e.id@, title: e.title@, steam_app_id: e.steam_app_id }
                            == listed_view(raw@[k])
                    },
                forall|k: int|
                    0 <= k < patterns@.len() ==> {
                        let p = #[trigger] patterns@[k];
                        p.entry_idx < i && p.basename@ == base_name(p.pattern@)
                    },
                patterns@.map_values(|p: IndexedPattern| p.listed()) == all_patterns(
                    raw@.take(i as int),
                    os@,
                ),
            decreases raw.len() - i,
        {
            let item = &raw[i];
            entries.push(
                IndexedEntry {
                    id: item.id.clone(),
                    title: item.name.clone(),
                    steam_app_id: steam_sku_of(&item.third_party_skus),
                },
            );
            let ghost before = all_patterns(raw@.take(i as int), os@);
            let exes = &item.executables;
            let mut j: usize = 0;
            assert(before + exe_patterns(exes@.take(0), os@, i as int) == before);
            while j < exes.len()
                invariant
                    j <= exes@.len(),
                    forall|k: int|
                        0 <= k < patterns@.len() ==> {
                            let p = #[trigger] patterns@[k];
                            p.entry_idx < i + 1 && p.basename@ == base_name(p.pattern@)
                        },
                    patterns@.map_values(|p: IndexedPattern| p.listed()) == before
                        + exe_patterns(exes@.take(j as int), os@, i as int),
                decreases exes.len() - j,
            {
                assert(exes@.take(j + 1).drop_last() == exes@.take(j as int));
                assert(exes@.take(j + 1).last() == exes@[j as int]);
                let exe = &exes[j];
                if !exe.is_launcher && same(exe.os.as_str(), os) {
                    let pattern = normalize_path(exe.name.as_str());
                    if pattern.as_str().unicode_len() > 0 {
                        let basename = pattern_basename(pattern.as_str());
                        let ghost was = patterns@;
                        let pat = IndexedPattern { pattern, basename, entry_idx: i };
                        patterns.push(pat);
                        assert(patterns@.map_values(|p: IndexedPattern| p.listed())
                            == was.map_values(|p: IndexedPattern| p.listed()).push(pat.listed()));
                    }
                }
                j = j + 1;
            }
            assert(exes@.take(j as int) == exes@);
            assert(raw@.take(i + 1).drop_last() == raw@.take(i as int));
            i = i + 1;
        }
        assert(raw@.take(i as int) == raw@);
        DetectableCatalog { entries, patterns }
    }

    /// The identity that the catalog gives a process.
    pub fn match_process(&self, proc: &ProcessSnapshot) -> (r: Option<GameIdentity>)
        ensures
            match r {
                Some(id) => detectable_match(self@, proc@) == Some(id@),
                None => detectable_match(self@, proc@) is None,
            },
    {
        proof {
            use_type_invariant(self);
        }
        let name = to_lower(proc.name.as_str());
        let path = match &proc.exe_path {
            Some(s) => normalize_path(s.as_str()),
            None => String::new(),
        };
        let ghost pats = self@.patterns;
        let ghost f = |pat: PatternView| fits(pat, proc@);
        let mut first: Option<usize> = None;
        let mut shared = false;
        let mut i: usize = 0;
        while i < self.patterns.len()
            invariant
                i <= self.patterns@.len(),
                self.wf(),
                pats == self@.patterns,
                f == (|pat: PatternView| fits(pat, proc@)),
                name@ == text::lower(proc.name@),
                path@ == process_path(proc@),
                match first {
                    Some(m) => m < i && f(pats[m as int]) && (forall|j: int|
                        0 <= j < m ==> !f(#[trigger] pats[j])) && shared == exists|j: int|
                        0 <= j < i && f(#[trigger] pats[j]) && pats[j].entry
                            != pats[m as int].entry,
                    None => !shared && forall|j: int| 0 <= j < i ==> !f(#[trigger] pats[j]),
                },
            decreases self.patterns.len() - i,
        {
            let pat = &self.patterns[i];
            assert(pats[i as int] == pat.listed());
            if pat.fits(name.as_str(), path.as_str()) {
                assert(f(pats[i as int]));
                match first {
                    Some(m) => {
                        assert(pats[m as int] == self.patterns@[m as int].listed());
                        if self.patterns[m].entry_idx != pat.entry_idx {
                            shared = true;
                        }
                    },
                    None => {
                        first = Some(i);
                    },
                }
            } else {
                assert(!f(pats[i as int]));
            }
            i = i + 1;
        }
        match first {
            Some(m) => {
                proof {
                    search::lemma_first_is(pats, f, m as int);
                }
                let at: usize = self.patterns[m].entry_idx;
                assert(pats[m as int] == self.patterns@[m as int].listed());
                let entry = &self.entries[at];
                assert(self@.entries[at as int] == (ListedView {
                    id: entry.id@,
                    title: entry.title@,
                    steam_app_id: entry.steam_app_id,
                }));
                let confidence = if shared {
                    Confidence::Low
                } else {
                    Confidence::Medium
                };
                proof {
                    if shared {
                        let j = choose|j: int|
                            0 <= j < i && f(#[trigger] pats[j]) && pats[j].entry
                                != pats[m as int].entry;
                        assert(fits(pats[j], proc@));
                        assert(!only_entry(pats, proc@, at as int));
                    } else {
                        assert forall|j: int| 0 <= j < pats.len() && fits(#[trigger] pats[j], proc@) implies pats[j].entry == at as int by {
                            assert(f(pats[j]));
                        }
                    }
                }
                Some(
                    GameIdentity {
                        id: join2("discord:", entry.id.as_str()),
                        title: entry.title.clone(),
                        steam_app_id: entry.steam_app_id,
                        exe: Some(proc.name.clone()),
                        confidence,
                        source: "discord".to_owned(),
                        fingerprint: None,
                    },
                )
            },
            None => {
                proof {
                    search::lemma_first_where(pats, f);
                }
                None
            },
        }
    }
}

/// Some executable is for this system, is no launcher and has this pattern.
pub open spec fn has_game_exe(
    exes: Seq<DetectableExecutable>,
    os: Seq<char>,
    pattern: Seq<char>,
) -> bool {
    exists|j: int|
        0 <= j < exes.len() && !(#[trigger] exes[j]).is_launcher && exes[j].os@ == os
            && normal_path(exes[j].name@) == pattern
}

/// A pattern comes from an executable of the entry it leads to, which is for this
/// system and no launcher.
pub open spec fn comes_from(pat: PatternView, raw: Seq<DetectableEntry>, os: Seq<char>) -> bool {
    0 <= pat.entry < raw.len() && has_game_exe(raw[pat.entry].executables@, os, pat.pattern)
}

/// Launchers, and executables for another system, are never matched: every
/// pattern of a catalog comes from an executable for its system that is no
/// launcher.
pub proof fn law_patterns_are_games(raw: Seq<DetectableEntry>, os: Seq<char>, k: int)
    requires
        0 <= k < catalog_of(raw, os).patterns.len(),
    ensures
        comes_from(catalog_of(raw, os).patterns[k], raw, os),
    decreases raw.len(),
{
    let all = all_patterns(raw, os);
    let head = all_patterns(raw.drop_last(), os);
    if k < head.len() {
        law_patterns_are_games(raw.drop_last(), os, k);
        let pat = head[k];
        assert(raw[pat.entry] == raw.drop_last()[pat.entry]);
    } else {
        lemma_exe_pattern(raw.last().executables@, os, raw.len() - 1, k - head.len());
        let pat = exe_patterns(raw.last().executables@, os, raw.len() - 1)[k - head.len()];
        assert(all[k] == pat);
        assert(raw[pat.entry] == raw.last());
    }
}

proof fn lemma_exe_pattern(exes: Seq<DetectableExecutable>, os: Seq<char>, entry: int, k: int)
    requires
        0 <= k < exe_patterns(exes, os, entry).len(),
    ensures
        exe_patterns(exes, os, entry)[k].entry == entry,
        has_game_exe(exes, os, exe_patterns(exes, os, entry)[k].pattern),
    decreases exes.len(),
{
    let t = exes.drop_last();
    let before = exe_patterns(t, os, entry);
    if k < before.len() {
        lemma_exe_pattern(t, os, entry, k);
        let j = choose|j: int|
            0 <= j < t.len() && !(#[trigger] t[j]).is_launcher && t[j].os@ == os && normal_path(
                t[j].name@,
            ) == before[k].pattern;
        assert(exes[j] == t[j]);
    } else {
        assert(exes[exes.len() - 1] == exes.last());
    }
}

// ---------------------------------------------------------------------------
// Refreshing
// ---------------------------------------------------------------------------

/// What is on disk was downloaded from `url` less than `max_age` seconds before
/// `now`. A time of download after `now` counts as `now`.
pub open spec fn fresh(meta: DetectableMeta, url: Seq<char>, max_age: u64, now: u64) -> bool {
    let age = if now >= meta.fetched_at {
        now - meta.fetched_at
    } else {
        0
    };
    meta.url@ == url && age < max_age
}

/// Whether what is on disk is still good for `url`.
pub fn meta_is_fresh(meta: &DetectableMeta, url: &str, max_age: u64, now: u64) -> (r: bool)
    ensures
        r == fresh(*meta, url@, max_age, now),
{
    if !same(meta.url.as_str(), url) {
        return false;
    }
    now.saturating_sub(meta.fetched_at) < max_age
}

/// What has happened so far while the catalog is made ready.
pub enum RefreshEvent {
    /// The description of what is on disk was read, if there is one.
    MetaRead(Option<DetectableMeta>),
    /// The catalog on disk was read; it has this many games.
    CacheRead(usize),
    /// The download ended; where it succeeded, this is whether it could be
    /// read as a catalog.
    Downloaded(Option<bool>),
}

/// What to do next while the catalog is made ready.
#[derive(Debug, Clone, Copy, PartialEq, Eq, Structural)]
pub enum RefreshStep {
    /// Read the catalog on disk.
    ReadCache,
    /// Download the catalog, and store it on disk.
    Download,
    /// Use the catalog on disk, as it is.
    UseCache,
    /// Use the catalog that was downloaded.
    UseDownloaded,
}

/// The next step: a fresh catalog on disk is used if it has games; else one is
/// downloaded; where that fails, what is on disk is used though it is stale.
pub open spec fn next_step(
    event: RefreshEvent,
    url: Seq<char>,
    max_age: u64,
    now: u64,
) -> RefreshStep {
    match event {
        RefreshEvent::MetaRead(meta) => if meta is Some && fresh(meta->0, url, max_age, now) {
            RefreshStep::ReadCache
        } else {
            RefreshStep::Download
        },
        RefreshEvent::CacheRead(games) => if games > 0 {
            RefreshStep::UseCache
        } else {
            RefreshStep::Download
        },
        RefreshEvent::Downloaded(parsed) => if parsed == Some(true) {
            RefreshStep::UseDownloaded
        } else {
            RefreshStep::UseCache
        },
    }
}

/// The next step while the catalog of `url` is made ready.
pub fn refresh_step(event: &RefreshEvent, url: &str, max_age: u64, now: u64) -> (r: RefreshStep)
    ensures
        r == next_step(*event, url@, max_age, now),
{
    match event {
        RefreshEvent::MetaRead(Some(meta)) => if meta_is_fresh(meta, url, max_age, now) {
            RefreshStep::ReadCache
        } else {
            RefreshStep::Download
        },
        RefreshEvent::MetaRead(None) => RefreshStep::Download,
        RefreshEvent::CacheRead(games) => if *games > 0 {
            RefreshStep::UseCache
        } else {
            RefreshStep::Download
        },
        RefreshEvent::Downloaded(Some(parsed)) => if *parsed {
            RefreshStep::UseDownloaded
        } else {
            RefreshStep::UseCache
        },
        RefreshEvent::Downloaded(None) => RefreshStep::UseCache,
    }
}

/// With an age limit of zero nothing on disk is fresh: the catalog is always
/// downloaded.
pub proof fn law_forced_refresh_downloads(
    meta: Option<DetectableMeta>,
    url: Seq<char>,
    now: u64,
)
    ensures
        next_step(RefreshEvent::MetaRead(meta), url, 0, now) == RefreshStep::Download,
{
}

} // verus!
