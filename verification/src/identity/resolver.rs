//! Which games the running processes are: Steam, then what the user has said,
//! then the crowd, then the local catalog, then the Discord catalog.

use vstd::prelude::*;

use super::catalog::{CatalogEntry, LocalCatalog};
use super::deny::is_denied;
use super::detectable::DetectableCatalog;
use super::fingerprint::fingerprint_process;
use super::steam_library::{steam_id_of, SteamGame, SteamLibraryIndex};
use super::{
    push_truth, push_unique, Confidence, GameIdentity, ManualGame, PendingDetection,
    ProcessSnapshot,
};
use crate::detect::platform;
use crate::host::HostOs;
use crate::identity;
use crate::identity::catalog;
use crate::identity::deny;
use crate::identity::detectable;
use crate::identity::fingerprint;
use crate::identity::steam_library;
use crate::keyed;
use crate::keyed::{Keyed, KeyedList};
use crate::search;
use crate::split;
use crate::split::last_in_text;
use crate::text;
use crate::text::{
    copy_opt, has_text, join2, same, same_ignoring_case, text_from, text_or_empty, text_until,
    to_lower, trim_end_of, trim_of, with_char_swapped, without_suffixes, CharSet,
};

verus! {

/// The game that the user has given a fingerprint.
#[derive(Debug)]
pub struct UserMapping {
    pub fingerprint: String,
    pub title: String,
    pub identity_id: String,
}

impl Keyed for UserMapping {
    open spec fn key(self) -> Seq<char> {
        self.fingerprint@
    }

    fn key_text(&self) -> &str {
        self.fingerprint.as_str()
    }
}

impl Clone for UserMapping {
    fn clone(&self) -> (r: Self)
        ensures
            r == *self,
    {
        UserMapping {
            fingerprint: self.fingerprint.clone(),
            title: self.title.clone(),
            identity_id: self.identity_id.clone(),
        }
    }
}

/// A service that knows games by the fingerprints of their processes.
pub trait CrowdResolver: Send + Sync {
    /// The service may answer this to a fingerprint: anything, where a service says
    /// no more of itself.
    open spec fn says(&self, fp: Seq<char>, answer: Option<identity::IdentityView>) -> bool {
        true
    }

    /// The game that the service knows by this fingerprint.
    fn resolve(&self, fingerprint: &str) -> (r: Option<GameIdentity>)
        ensures
            self.says(fingerprint@, answer_view(r)),
    ;
}

/// A service that knows no games.
pub struct NullCrowdResolver;

impl CrowdResolver for NullCrowdResolver {
    open spec fn says(&self, fp: Seq<char>, answer: Option<identity::IdentityView>) -> bool {
        answer is None
    }

    fn resolve(&self, _fingerprint: &str) -> (r: Option<GameIdentity>) {
        None
    }
}

/// All that decides which games the processes are.
pub struct IdentityPipeline {
    pub steam: SteamLibraryIndex,
    pub catalog: LocalCatalog,
    pub detectable: DetectableCatalog,
    pub user_mappings: KeyedList<UserMapping>,
    pub manual_games: Vec<ManualGame>,
    pub ignored_identities: KeyedList<String>,
    pub crowd: Box<dyn CrowdResolver>,
    pub host: HostOs,
}

/// The mathematical value of what decides, apart from the crowd.
pub struct Rules {
    pub games: Map<u32, SteamGame>,
    pub catalog: Seq<CatalogEntry>,
    pub detectable: detectable::DetectableView,
    pub mappings: Seq<UserMapping>,
    pub manual: Seq<identity::ManualView>,
    pub ignored: Seq<String>,
    pub host: HostOs,
}

impl IdentityPipeline {
    /// What decides, apart from the crowd.
    pub open spec fn rules(&self) -> Rules {
        Rules {
            games: self.steam.games@,
            catalog: self.catalog.entries@,
            detectable: self.detectable@,
            mappings: self.user_mappings@,
            manual: identity::manual_views(self.manual_games@),
            ignored: self.ignored_identities@,
            host: self.host,
        }
    }

    /// The crowd knows no games.
    pub open spec fn silent(&self) -> bool {
        forall|fp: Seq<char>, a: Option<identity::IdentityView>| #[trigger]
            self.crowd.says(fp, a) ==> a is None
    }

    /// The crowd is that of `other`.
    pub open spec fn same_crowd(&self, other: &IdentityPipeline) -> bool {
        self.crowd == other.crowd
    }

    /// These are answers of the crowd, which is asked about each process that is
    /// not denied and that the user has said nothing of.
    pub open spec fn asked(
        &self,
        procs: Seq<identity::ProcessView>,
        fps: Seq<Seq<char>>,
        answers: Seq<Option<identity::IdentityView>>,
    ) -> bool {
        &&& answers.len() == procs.len()
        &&& forall|j: int|
            0 <= j < procs.len() ==> if user_decides(self.rules(), procs[j], fps[j]) {
                #[trigger] answers[j] is None
            } else {
                self.crowd.says(fps[j], answers[j])
            }
    }
}

/// Identities that were found, and detections that wait for the user.
#[verifier::ext_equal]
pub struct Findings {
    pub identities: Seq<identity::IdentityView>,
    pub pending: Seq<identity::PendingView>,
}

// ---------------------------------------------------------------------------
// Games that the user has entered
// ---------------------------------------------------------------------------

/// The name that was entered fits a process with this lower-case name: they are
/// the same up to `.exe`, ASCII case and white space around what was entered.
pub open spec fn name_fits(configured: Seq<char>, name: Seq<char>) -> bool {
    text::trim_end_text(text::lower(text::trim(configured, CharSet::White)), ".exe"@)
        == text::trim_end_text(name, ".exe"@) || text::same_letters(configured, name)
}

fn exe_name_matches(configured: &str, proc_name: &str) -> (r: bool)
    ensures
        r == name_fits(configured@, proc_name@),
{
    let t = trim_of(configured, CharSet::White);
    let low = to_lower(t.as_str());
    let a = without_suffixes(low.as_str(), ".exe");
    let b = without_suffixes(proc_name, ".exe");
    same(a.as_str(), b.as_str()) || same_ignoring_case(configured, proc_name)
}

/// A path with slashes and in lower case.
pub open spec fn plain_path(s: Seq<char>) -> Seq<char> {
    text::lower(text::swap_char(s, '\\', '/'))
}

/// The game fits the process: by name, and by its hint, where it has one, which
/// stands in the path.
pub open spec fn manual_fits(g: identity::ManualView, p: identity::ProcessView) -> bool {
    &&& name_fits(g.exe_name, text::lower(p.name))
    &&& g.path_hint is Some ==> text::contains(
        plain_path(catalog::text_of(p.exe_path)),
        plain_path(g.path_hint->0),
    )
}

/// The identity id of a game that the user has entered.
pub open spec fn manual_id(g: identity::ManualView) -> Seq<char> {
    match g.steam_app_id {
        Some(id) => steam_library::steam_id(id),
        None => "manual:"@ + g.id,
    }
}

/// The identity of a game that the user has entered.
pub open spec fn manual_identity(
    g: identity::ManualView,
    name: Seq<char>,
) -> identity::IdentityView {
    identity::IdentityView {
        id: manual_id(g),
        title: g.title,
        steam_app_id: g.steam_app_id,
        exe: Some(name),
        confidence: Confidence::Medium,
        source: "manual"@,
        fingerprint: None,
    }
}

/// The identity that the first fitting game gives a process.
pub open spec fn manual_match(
    games: Seq<identity::ManualView>,
    p: identity::ProcessView,
) -> Option<identity::IdentityView> {
    match search::first_where(games, |g: identity::ManualView| manual_fits(g, p)) {
        Some(i) => Some(manual_identity(games[i], p.name)),
        None => None,
    }
}

/// The identity id of a game that the user has entered.
pub fn manual_id_of(g: &ManualGame) -> (r: String)
    ensures
        r@ == manual_id(g@),
{
    match g.steam_app_id {
        Some(id) => steam_id_of(id),
        None => join2("manual:", g.id.as_str()),
    }
}

fn fits_manual(g: &ManualGame, proc: &ProcessSnapshot) -> (r: bool)
    ensures
        r == manual_fits(g@, proc@),
{
    let name = to_lower(proc.name.as_str());
    if !exe_name_matches(g.exe_name.as_str(), name.as_str()) {
        return false;
    }
    match &g.path_hint {
        Some(hint) => {
            let raw = text_or_empty(&proc.exe_path);
            let slashed = with_char_swapped(raw.as_str(), '\\', '/');
            let path = to_lower(slashed.as_str());
            let h = with_char_swapped(hint.as_str(), '\\', '/');
            let wanted = to_lower(h.as_str());
            has_text(path.as_str(), wanted.as_str())
        },
        None => true,
    }
}

/// The identity that the games of the user give a process.
pub fn match_manual_game(games: &[ManualGame], proc: &ProcessSnapshot) -> (r: Option<GameIdentity>)
    ensures
        match r {
            Some(id) => manual_match(identity::manual_views(games@), proc@) == Some(id@),
            None => manual_match(identity::manual_views(games@), proc@) is None,
        },
{
    let ghost all = identity::manual_views(games@);
    let ghost f = |g: identity::ManualView| manual_fits(g, proc@);
    let mut i: usize = 0;
    while i < games.len()
        invariant
            i <= games@.len(),
            all == identity::manual_views(games@),
            f == (|g: identity::ManualView| manual_fits(g, proc@)),
            forall|j: int| 0 <= j < i ==> !f(#[trigger] all[j]),
        decreases games.len() - i,
    {
        let g = &games[i];
        assert(all[i as int] == g@);
        if fits_manual(g, proc) {
            proof {
                search::lemma_first_is(all, f, i as int);
            }
            return Some(
                GameIdentity {
                    id: manual_id_of(g),
                    title: g.title.clone(),
                    steam_app_id: g.steam_app_id,
                    exe: Some(proc.name.clone()),
                    confidence: Confidence::Medium,
                    source: "manual".to_owned(),
                    fingerprint: None,
                },
            );
        }
        i = i + 1;
    }
    proof {
        search::lemma_first_where(all, f);
    }
    None
}

// ---------------------------------------------------------------------------
// One process
// ---------------------------------------------------------------------------

/// The identity that the user has given a fingerprint.
pub open spec fn mapped_identity(
    m: UserMapping,
    name: Seq<char>,
    fp: Seq<char>,
) -> identity::IdentityView {
    identity::IdentityView {
        id: m.identity_id@,
        title: m.title@,
        steam_app_id: None,
        exe: Some(name),
        confidence: Confidence::Medium,
        source: "user"@,
        fingerprint: Some(fp),
    }
}

/// A detection that waits for the user.
pub open spec fn pending_view(
    p: identity::ProcessView,
    fp: Seq<char>,
    id: identity::IdentityView,
) -> identity::PendingView {
    identity::PendingView {
        process_name: p.name,
        exe_path: p.exe_path,
        fingerprint: fp,
        suggested_title: id.title,
        identity_id: Some(id.id),
    }
}

/// A Steam game by path that runs as `name`.
pub open spec fn by_path_as(i: identity::IdentityView, name: Seq<char>) -> bool {
    i.source == "steam-path"@ && i.exe is Some && text::same_letters(i.exe->0, name)
}

/// What a match with the Discord catalog does to the identities. Where one of
/// them is the same Steam game (or, for a Discord game without a Steam id, is a
/// Steam game by path of the same process), its low confidence is raised to
/// medium; else the match is added.
pub open spec fn absorbed(
    list: Seq<identity::IdentityView>,
    d: identity::IdentityView,
    name: Seq<char>,
) -> Seq<identity::IdentityView> {
    match d.steam_app_id {
        Some(sid) => match search::first_where(
            list,
            |i: identity::IdentityView| i.steam_app_id == Some(sid),
        ) {
            Some(k) => if list[k].confidence == Confidence::Low {
                list.update(k, identity::IdentityView { confidence: Confidence::Medium, ..list[k] })
            } else {
                list
            },
            None => identity::with_unique(list, d),
        },
        None => match search::first_where(
            list,
            |i: identity::IdentityView| by_path_as(i, name),
        ) {
            Some(k) => list.update(
                k,
                identity::IdentityView { confidence: Confidence::Medium, ..list[k] },
            ),
            None => identity::with_unique(list, d),
        },
    }
}

/// The identity that the user has given a process, by its fingerprint or by a game
/// that was entered.
pub open spec fn named_by_user(
    rules: Rules,
    p: identity::ProcessView,
    fp: Seq<char>,
) -> Option<identity::IdentityView> {
    match keyed::lookup(rules.mappings, fp) {
        Some(m) => Some(mapped_identity(m, p.name, fp)),
        None => manual_match(rules.manual, p),
    }
}

/// The crowd has no say: the process is denied, or the user has named it.
pub open spec fn user_decides(rules: Rules, p: identity::ProcessView, fp: Seq<char>) -> bool {
    deny::denied(p.name) || named_by_user(rules, p, fp) is Some
}

/// What one process adds to the findings: what the user has said of it is the
/// truth, and the rest is looked up in turn. `fp` is its fingerprint, `crowd` what
/// the crowd says to it.
pub open spec fn step(
    rules: Rules,
    so_far: Findings,
    p: identity::ProcessView,
    fp: Seq<char>,
    crowd: Option<identity::IdentityView>,
) -> Findings {
    if deny::denied(p.name) {
        so_far
    } else if let Some(m) = keyed::lookup(rules.mappings, fp) {
        Findings {
            identities: identity::with_truth(
                so_far.identities,
                mapped_identity(m, p.name, fp),
            ),
            ..so_far
        }
    } else if let Some(id) = manual_match(rules.manual, p) {
        Findings { identities: identity::with_truth(so_far.identities, id), ..so_far }
    } else if let Some(id) = crowd {
        Findings { identities: identity::with_unique(so_far.identities, id), ..so_far }
    } else if platform::windows::sidecar(p) || platform::linux::wraps(p.name) {
        so_far
    } else if let Some(id) = catalog::catalog_match(
        rules.catalog,
        p,
        rules.host.catalog_label(),
    ) {
        if id.confidence.auto() {
            Findings { identities: identity::with_unique(so_far.identities, id), ..so_far }
        } else {
            Findings { pending: so_far.pending.push(pending_view(p, fp, id)), ..so_far }
        }
    } else if let Some(id) = detectable::detectable_match(rules.detectable, p) {
        if id.confidence.auto() {
            Findings { identities: absorbed(so_far.identities, id, p.name), ..so_far }
        } else {
            Findings { pending: so_far.pending.push(pending_view(p, fp, id)), ..so_far }
        }
    } else {
        so_far
    }
}

// ---------------------------------------------------------------------------
// All processes
// ---------------------------------------------------------------------------

/// The findings of all processes, in order, before the user's wishes count.
pub open spec fn collected(
    rules: Rules,
    procs: Seq<identity::ProcessView>,
    fps: Seq<Seq<char>>,
    answers: Seq<Option<identity::IdentityView>>,
    n: int,
) -> Findings
    decreases n,
{
    if n <= 0 {
        Findings {
            identities: platform::steam_games(procs, rules.games, rules.host),
            pending: Seq::empty(),
        }
    } else {
        step(
            rules,
            collected(rules, procs, fps, answers, n - 1),
            procs[n - 1],
            fps[n - 1],
            answers[n - 1],
        )
    }
}

/// The identity is tracked: its confidence allows it, and the user has not
/// turned it off.
pub open spec fn kept(ignored: Seq<String>, i: identity::IdentityView) -> bool {
    i.confidence.auto() && !keyed::has_key(ignored, i.id)
}

/// The detection is shown: the user has not turned its identity off.
pub open spec fn shown(ignored: Seq<String>, p: identity::PendingView) -> bool {
    p.identity_id is Some ==> !keyed::has_key(ignored, p.identity_id->0)
}

/// The findings that are left when the user's wishes count.
pub open spec fn retained(ignored: Seq<String>, f: Findings) -> Findings {
    Findings {
        identities: f.identities.filter(|i: identity::IdentityView| kept(ignored, i)),
        pending: f.pending.filter(|p: identity::PendingView| shown(ignored, p)),
    }
}

/// What the processes are, with these fingerprints and answers of the crowd.
pub open spec fn resolved(
    rules: Rules,
    procs: Seq<identity::ProcessView>,
    fps: Seq<Seq<char>>,
    answers: Seq<Option<identity::IdentityView>>,
) -> Findings {
    retained(rules.ignored, collected(rules, procs, fps, answers, procs.len() as int))
}

/// No answers to so many questions.
pub open spec fn unanswered(n: nat) -> Seq<Option<identity::IdentityView>> {
    Seq::new(n, |j: int| None)
}

/// The answer of the crowd.
pub open spec fn answer_view(a: Option<GameIdentity>) -> Option<identity::IdentityView> {
    match a {
        Some(id) => Some(id@),
        None => None,
    }
}

/// The answers of the crowd.
pub open spec fn answer_views(
    s: Seq<Option<GameIdentity>>,
) -> Seq<Option<identity::IdentityView>> {
    s.map_values(|a: Option<GameIdentity>| answer_view(a))
}

/// The place of the first identity with this Steam app id.
fn steam_index(list: &Vec<GameIdentity>, sid: u32) -> (r: Option<usize>)
    ensures
        match r {
            Some(k) => k < list@.len() && search::first_where(
                identity::id_views(list@),
                |i: identity::IdentityView| i.steam_app_id == Some(sid),
            ) == Some(k as int),
            None => search::first_where(
                identity::id_views(list@),
                |i: identity::IdentityView| i.steam_app_id == Some(sid),
            ) is None,
        },
{
    let ghost all = identity::id_views(list@);
    let ghost f = |i: identity::IdentityView| i.steam_app_id == Some(sid);
    let mut i: usize = 0;
    while i < list.len()
        invariant
            i <= list@.len(),
            all == identity::id_views(list@),
            f == (|i: identity::IdentityView| i.steam_app_id == Some(sid)),
            forall|j: int| 0 <= j < i ==> !f(#[trigger] all[j]),
        decreases list.len() - i,
    {
        assert(all[i as int] == list@[i as int]@);
        if let Some(other) = list[i].steam_app_id {
            if other == sid {
                proof {
                    search::lemma_first_is(all, f, i as int);
                }
                return Some(i);
            }
        }
        i = i + 1;
    }
    proof {
        search::lemma_first_where(all, f);
    }
    None
}

/// The place of the first Steam game by path that runs as `name`.
fn by_path_index(list: &Vec<GameIdentity>, name: &str) -> (r: Option<usize>)
    ensures
        match r {
            Some(k) => k < list@.len() && search::first_where(
                identity::id_views(list@),
                |i: identity::IdentityView| by_path_as(i, name@),
            ) == Some(k as int),
            None => search::first_where(
                identity::id_views(list@),
                |i: identity::IdentityView| by_path_as(i, name@),
            ) is None,
        },
{
    let ghost all = identity::id_views(list@);
    let ghost f = |i: identity::IdentityView| by_path_as(i, name@);
    let mut i: usize = 0;
    while i < list.len()
        invariant
            i <= list@.len(),
            all == identity::id_views(list@),
            f == (|i: identity::IdentityView| by_path_as(i, name@)),
            forall|j: int| 0 <= j < i ==> !f(#[trigger] all[j]),
        decreases list.len() - i,
    {
        assert(all[i as int] == list@[i as int]@);
        if let Some(exe) = &list[i].exe {
            if same(list[i].source.as_str(), "steam-path") && same_ignoring_case(
                exe.as_str(),
                name,
            ) {
                proof {
                    search::lemma_first_is(all, f, i as int);
                }
                return Some(i);
            }
        }
        i = i + 1;
    }
    proof {
        search::lemma_first_where(all, f);
    }
    None
}

/// Gives the identity at index `k` medium confidence.
fn raise_confidence(list: &mut Vec<GameIdentity>, k: usize)
    requires
        k < old(list)@.len(),
    ensures
        identity::id_views(final(list)@) == identity::id_views(old(list)@).update(
            k as int,
            identity::IdentityView {
                confidence: Confidence::Medium,
                ..identity::id_views(old(list)@)[k as int]
            },
        ),
{
    let was = list[k].clone();
    list.set(k, GameIdentity { confidence: Confidence::Medium, ..was });
}

/// Takes in a match with the Discord catalog: it raises the confidence of the
/// same Steam game, or of a Steam game by path of the same process; else it is
/// added.
pub fn absorb_discord(
    identities: &mut Vec<GameIdentity>,
    discord: GameIdentity,
    proc: &ProcessSnapshot,
)
    ensures
        identity::id_views(final(identities)@) == absorbed(
            identity::id_views(old(identities)@),
            discord@,
            proc.name@,
        ),
{
    match discord.steam_app_id {
        Some(sid) => match steam_index(identities, sid) {
            Some(k) => {
                assert(identity::id_views(identities@)[k as int] == identities@[k as int]@);
                if identities[k].confidence == Confidence::Low {
                    raise_confidence(identities, k);
                }
            },
            None => push_unique(identities, discord),
        },
        None => match by_path_index(identities, proc.name.as_str()) {
            Some(k) => raise_confidence(identities, k),
            None => push_unique(identities, discord),
        },
    }
}

fn keep_identities(all: Vec<GameIdentity>, ignored: &KeyedList<String>) -> (r: Vec<GameIdentity>)
    ensures
        identity::id_views(r@) == identity::id_views(all@).filter(
            |i: identity::IdentityView| kept(ignored@, i),
        ),
{
    let ghost f = |i: identity::IdentityView| kept(ignored@, i);
    let ghost views = identity::id_views(all@);
    let mut r: Vec<GameIdentity> = Vec::new();
    let mut i: usize = 0;
    proof {
        reveal(Seq::filter);
    }
    assert(identity::id_views(r@) == views.take(0).filter(f));
    while i < all.len()
        invariant
            i <= all@.len(),
            f == (|i: identity::IdentityView| kept(ignored@, i)),
            views == identity::id_views(all@),
            identity::id_views(r@) == views.take(i as int).filter(f),
        decreases all.len() - i,
    {
        proof {
            reveal(Seq::filter);
        }
        assert(views.take(i + 1).drop_last() == views.take(i as int));
        assert(views.take(i + 1).last() == all@[i as int]@);
        if all[i].confidence.allows_auto_track() && !ignored.contains(all[i].id.as_str()) {
            let ghost was = r@;
            r.push(all[i].clone());
            assert(identity::id_views(r@) == identity::id_views(was).push(all@[i as int]@));
        }
        i = i + 1;
    }
    assert(views.take(i as int) == views);
    r
}

fn keep_pending(all: Vec<PendingDetection>, ignored: &KeyedList<String>) -> (r: Vec<
    PendingDetection,
>)
    ensures
        identity::pending_views(r@) == identity::pending_views(all@).filter(
            |p: identity::PendingView| shown(ignored@, p),
        ),
{
    let ghost f = |p: identity::PendingView| shown(ignored@, p);
    let ghost views = identity::pending_views(all@);
    let mut r: Vec<PendingDetection> = Vec::new();
    let mut i: usize = 0;
    proof {
        reveal(Seq::filter);
    }
    assert(identity::pending_views(r@) == views.take(0).filter(f));
    while i < all.len()
        invariant
            i <= all@.len(),
            f == (|p: identity::PendingView| shown(ignored@, p)),
            views == identity::pending_views(all@),
            identity::pending_views(r@) == views.take(i as int).filter(f),
        decreases all.len() - i,
    {
        proof {
            reveal(Seq::filter);
        }
        assert(views.take(i + 1).drop_last() == views.take(i as int));
        assert(views.take(i + 1).last() == all@[i as int]@);
        let keep = match &all[i].identity_id {
            Some(id) => !ignored.contains(id.as_str()),
            None => true,
        };
        if keep {
            let ghost was = r@;
            r.push(all[i].clone());
            assert(identity::pending_views(r@) == identity::pending_views(was).push(
                all@[i as int]@,
            ));
        }
        i = i + 1;
    }
    assert(views.take(i as int) == views);
    r
}

fn pending_of(proc: &ProcessSnapshot, fp: &String, id: GameIdentity) -> (r: PendingDetection)
    ensures
        r@ == pending_view(proc@, fp@, id@),
{
    PendingDetection {
        process_name: proc.name.clone(),
        exe_path: copy_opt(&proc.exe_path),
        fingerprint: fp.clone(),
        suggested_title: id.title,
        identity_id: Some(id.id),
    }
}

fn push_pending(list: &mut Vec<PendingDetection>, p: PendingDetection)
    ensures
        identity::pending_views(final(list)@) == identity::pending_views(old(list)@).push(p@),
{
    let ghost was = list@;
    list.push(p);
    assert(identity::pending_views(list@) == identity::pending_views(was).push(p@));
}

impl IdentityPipeline {
    /// A pipeline without manual games, ignored identities and crowd.
    pub fn new(
        steam: SteamLibraryIndex,
        catalog: LocalCatalog,
        detectable: DetectableCatalog,
        user_mappings: KeyedList<UserMapping>,
        host: HostOs,
    ) -> (r: Self)
        ensures
            r.rules() == (Rules {
                games: steam.games@,
                catalog: catalog.entries@,
                detectable: detectable@,
                mappings: user_mappings@,
                manual: Seq::empty(),
                ignored: Seq::empty(),
                host,
            }),
            r.silent(),
    {
        let manual_games: Vec<ManualGame> = Vec::new();
        assert(identity::manual_views(manual_games@) == Seq::<identity::ManualView>::empty());
        IdentityPipeline {
            steam,
            catalog,
            detectable,
            user_mappings,
            manual_games,
            ignored_identities: KeyedList::new(),
            crowd: Box::new(NullCrowdResolver),
            host,
        }
    }

    /// Takes another Steam library and catalog. What the user has said stays; an
    /// empty Discord catalog gives way to `stored`.
    pub fn reload(
        &mut self,
        steam: SteamLibraryIndex,
        catalog: LocalCatalog,
        stored: DetectableCatalog,
    )
        ensures
            final(self).rules() == (Rules {
                games: steam.games@,
                catalog: catalog.entries@,
                detectable: if old(self).rules().detectable.entries.len() == 0 {
                    stored@
                } else {
                    old(self).rules().detectable
                },
                ..old(self).rules()
            }),
            final(self).silent(),
    {
        self.steam = steam;
        self.catalog = catalog;
        if self.detectable.is_empty() {
            self.detectable = stored;
        }
        self.crowd = Box::new(NullCrowdResolver);
    }

    /// Takes another Discord catalog, unless it is empty. Gives whether it did.
    pub fn take_detectable(&mut self, catalog: DetectableCatalog) -> (r: bool)
        ensures
            r == (catalog@.entries.len() > 0),
            final(self).rules() == (if r {
                Rules { detectable: catalog@, ..old(self).rules() }
            } else {
                old(self).rules()
            }),
            final(self).same_crowd(old(self)),
    {
        if catalog.is_empty() {
            return false;
        }
        self.detectable = catalog;
        true
    }

    /// What one process adds to the findings.
    fn take_step(
        &self,
        identities: &mut Vec<GameIdentity>,
        pending: &mut Vec<PendingDetection>,
        proc: &ProcessSnapshot,
        fp: &String,
        crowd: &Option<GameIdentity>,
    )
        ensures
            (Findings {
                identities: identity::id_views(final(identities)@),
                pending: identity::pending_views(final(pending)@),
            }) == step(
                self.rules(),
                (Findings {
                    identities: identity::id_views(old(identities)@),
                    pending: identity::pending_views(old(pending)@),
                }),
                proc@,
                fp@,
                answer_view(*crowd),
            ),
    {
        if is_denied(proc.name.as_str()) {
            return;
        }
        if let Some(m) = self.user_mappings.get(fp.as_str()) {
            let id = GameIdentity {
                id: m.identity_id.clone(),
                title: m.title.clone(),
                steam_app_id: None,
                exe: Some(proc.name.clone()),
                confidence: Confidence::Medium,
                source: "user".to_owned(),
                fingerprint: Some(fp.clone()),
            };
            assert(id@ == mapped_identity(*m, proc.name@, fp@));
            push_truth(identities, id);
            return;
        }
        if let Some(id) = match_manual_game(self.manual_games.as_slice(), proc) {
            push_truth(identities, id);
            return;
        }
        if let Some(id) = crowd {
            push_unique(identities, id.clone());
            return;
        }
        if platform::windows::is_install_sidecar(proc) || platform::linux::is_proton_wrapper(
            proc.name.as_str(),
        ) {
            return;
        }
        if let Some(id) = self.catalog.match_process(proc, self.host) {
            if id.confidence.allows_auto_track() {
                push_unique(identities, id);
            } else {
                push_pending(pending, pending_of(proc, fp, id));
            }
            return;
        }
        if let Some(id) = self.detectable.match_process(proc) {
            if id.confidence.allows_auto_track() {
                absorb_discord(identities, id, proc);
            } else {
                push_pending(pending, pending_of(proc, fp, id));
            }
        }
    }

    /// What the processes are, with these fingerprints and answers of the crowd.
    pub fn resolve_with(
        &self,
        processes: &[ProcessSnapshot],
        fingerprints: &Vec<String>,
        answers: &Vec<Option<GameIdentity>>,
    ) -> (r: (Vec<GameIdentity>, Vec<PendingDetection>))
        requires
            fingerprints@.len() == processes@.len(),
            answers@.len() == processes@.len(),
        ensures
            (Findings {
                identities: identity::id_views(r.0@),
                pending: identity::pending_views(r.1@),
            }) == resolved(
                self.rules(),
                identity::proc_views(processes@),
                text::views(fingerprints@),
                answer_views(answers@),
            ),
    {
        let ghost rules = self.rules();
        let ghost procs = identity::proc_views(processes@);
        let ghost fps = text::views(fingerprints@);
        let ghost ans = answer_views(answers@);
        let mut identities = platform::detect_steam(processes, &self.steam, self.host);
        let mut pending: Vec<PendingDetection> = Vec::new();
        assert(identity::pending_views(pending@) == Seq::<identity::PendingView>::empty());
        let mut i: usize = 0;
        while i < processes.len()
            invariant
                i <= processes@.len(),
                fingerprints@.len() == processes@.len(),
                answers@.len() == processes@.len(),
                rules == self.rules(),
                procs == identity::proc_views(processes@),
                fps == text::views(fingerprints@),
                ans == answer_views(answers@),
                (Findings {
                    identities: identity::id_views(identities@),
                    pending: identity::pending_views(pending@),
                }) == collected(rules, procs, fps, ans, i as int),
            decreases processes.len() - i,
        {
            self.take_step(
                &mut identities,
                &mut pending,
                &processes[i],
                &fingerprints[i],
                &answers[i],
            );
            i = i + 1;
        }
        let ids = keep_identities(identities, &self.ignored_identities);
        let wait = keep_pending(pending, &self.ignored_identities);
        (ids, wait)
    }

    /// What the processes are: the identities to track, and the detections that
    /// wait for the user. Each process that is not denied is fingerprinted, and
    /// the crowd is asked about those that the user has said nothing of.
    pub fn resolve_running(&self, processes: &[ProcessSnapshot]) -> (r: (
        Vec<GameIdentity>,
        Vec<PendingDetection>,
    ))
        ensures
            exists|fps: Seq<Seq<char>>, answers: Seq<Option<identity::IdentityView>>|
                {
                    &&& fingerprinted(identity::proc_views(processes@), fps)
                    &&& self.asked(identity::proc_views(processes@), fps, answers)
                    &&& (Findings {
                        identities: identity::id_views(r.0@),
                        pending: identity::pending_views(r.1@),
                    }) == #[trigger] resolved(
                        self.rules(),
                        identity::proc_views(processes@),
                        fps,
                        answers,
                    )
                },
            self.silent() ==> exists|fps: Seq<Seq<char>>|
                fingerprinted(identity::proc_views(processes@), fps) && (Findings {
                    identities: identity::id_views(r.0@),
                    pending: identity::pending_views(r.1@),
                }) == #[trigger] resolved(
                    self.rules(),
                    identity::proc_views(processes@),
                    fps,
                    unanswered(processes@.len()),
                ),
    {
        let ghost procs = identity::proc_views(processes@);
        let mut fps: Vec<String> = Vec::new();
        let mut answers: Vec<Option<GameIdentity>> = Vec::new();
        let mut i: usize = 0;
        while i < processes.len()
            invariant
                i <= processes@.len(),
                procs == identity::proc_views(processes@),
                fps@.len() == i,
                answers@.len() == i,
                forall|j: int|
                    0 <= j < i && !deny::denied((#[trigger] procs[j]).name)
                        ==> fingerprint::fingerprint_of(procs[j], fps@[j]@),
                forall|j: int|
                    0 <= j < i ==> if user_decides(self.rules(), procs[j], fps@[j]@) {
                        #[trigger] answers@[j] is None
                    } else {
                        self.crowd.says(fps@[j]@, answer_view(answers@[j]))
                    },
            decreases processes.len() - i,
        {
            let p = &processes[i];
            assert(procs[i as int] == p@);
            if is_denied(p.name.as_str()) {
                fps.push(String::new());
                answers.push(None);
            } else {
                let fp = fingerprint_process(p);
                let known = self.user_mappings.contains(fp.as_str()) || match_manual_game(
                    self.manual_games.as_slice(),
                    p,
                ).is_some();
                let answer = if known {
                    None
                } else {
                    self.crowd.resolve(fp.as_str())
                };
                fps.push(fp);
                answers.push(answer);
            }
            i = i + 1;
        }
        assert(fingerprinted(procs, text::views(fps@)));
        proof {
            let said = answer_views(answers@);
            assert forall|j: int| 0 <= j < procs.len() implies if user_decides(
                self.rules(),
                procs[j],
                text::views(fps@)[j],
            ) {
                #[trigger] said[j] is None
            } else {
                self.crowd.says(text::views(fps@)[j], said[j])
            } by {
                assert(said[j] == answer_view(answers@[j]));
            }
            assert(self.asked(procs, text::views(fps@), said));
            if self.silent() {
                law_silent_crowd(*self, procs, text::views(fps@), said);
            }
        }
        self.resolve_with(processes, &fps, &answers)
    }
}

/// Each process that is not denied has its fingerprint here.
pub open spec fn fingerprinted(procs: Seq<identity::ProcessView>, fps: Seq<Seq<char>>) -> bool {
    &&& fps.len() == procs.len()
    &&& forall|j: int|
        0 <= j < procs.len() && !deny::denied((#[trigger] procs[j]).name)
            ==> fingerprint::fingerprint_of(procs[j], fps[j])
}

// ---------------------------------------------------------------------------
// What the user enters
// ---------------------------------------------------------------------------

/// The last segment of a path, where any slash parts segments.
pub open spec fn last_segment(s: Seq<char>) -> Seq<char> {
    match split::last_in(s, CharSet::AnySlash) {
        Some(i) => s.skip(i + 1),
        None => s,
    }
}

/// The hint that the directory of an executable gives: its last segment; none
/// for an empty directory or the current one.
pub open spec fn hint_of(parent: Seq<char>) -> Option<Seq<char>> {
    let dir = text::trim_end(text::trim(parent, CharSet::White), CharSet::AnySlash);
    if dir.len() == 0 || dir == "."@ {
        None
    } else {
        Some(last_segment(dir))
    }
}

/// What was entered, without white space and quotes around it.
pub open spec fn bare_input(raw: Seq<char>) -> Seq<char> {
    text::trim(text::trim(text::trim(raw, CharSet::White), CharSet::Quote), CharSet::White)
}

/// The name of an executable and the hint of its directory, from what was
/// entered; or what is wrong with it.
pub open spec fn exe_input(raw: Seq<char>) -> Result<(Seq<char>, Option<Seq<char>>), Seq<char>> {
    let path = text::trim_end(bare_input(raw), CharSet::AnySlash);
    if bare_input(raw).len() == 0 {
        Err("Exe / path is required"@)
    } else if path.len() == 0 {
        Err("Could not parse exe name"@)
    } else {
        match split::last_in(path, CharSet::AnySlash) {
            Some(i) => Ok((path.skip(i + 1), hint_of(path.take(i)))),
            None => Ok((path, None)),
        }
    }
}

fn hint_from(parent: &str) -> (r: Option<String>)
    ensures
        text::opt_view(r) == hint_of(parent@),
{
    let t = trim_of(parent, CharSet::White);
    let dir = trim_end_of(t.as_str(), CharSet::AnySlash);
    let n: usize = dir.as_str().unicode_len();
    if n == 0 || same(dir.as_str(), ".") {
        return None;
    }
    match last_in_text(dir.as_str(), CharSet::AnySlash) {
        Some(i) => {
            assert(i < n);
            Some(text_from(dir.as_str(), i + 1))
        },
        None => Some(dir),
    }
}

/// The name of an executable and a hint of its directory, from what the user has
/// entered. Both kinds of slashes part segments on every system.
pub fn parse_exe_input(raw: &str) -> (r: Result<(String, Option<String>), String>)
    ensures
        match r {
            Ok((name, hint)) => exe_input(raw@) == Ok::<_, Seq<char>>(
                (name@, text::opt_view(hint)),
            ),
            Err(e) => exe_input(raw@) == Err::<(Seq<char>, Option<Seq<char>>), _>(e@),
        },
{
    let a = trim_of(raw, CharSet::White);
    let b = trim_of(a.as_str(), CharSet::Quote);
    let bare = trim_of(b.as_str(), CharSet::White);
    if bare.as_str().unicode_len() == 0 {
        return Err("Exe / path is required".to_owned());
    }
    let path = trim_end_of(bare.as_str(), CharSet::AnySlash);
    let n: usize = path.as_str().unicode_len();
    if n == 0 {
        return Err("Could not parse exe name".to_owned());
    }
    match last_in_text(path.as_str(), CharSet::AnySlash) {
        Some(i) => {
            assert(i < n);
            let parent = text_until(path.as_str(), i);
            Ok((text_from(path.as_str(), i + 1), hint_from(parent.as_str())))
        },
        None => Ok((path, None)),
    }
}

/// The name of an executable is never empty and holds no slash.
pub proof fn law_exe_name_is_a_segment(raw: Seq<char>, name: Seq<char>, hint: Option<Seq<char>>)
    requires
        exe_input(raw) == Ok::<(Seq<char>, Option<Seq<char>>), Seq<char>>((name, hint)),
    ensures
        name.len() > 0,
        forall|i: int| 0 <= i < name.len() ==> name[i] != '/' && name[i] != '\\',
{
    let path = text::trim_end(bare_input(raw), CharSet::AnySlash);
    lemma_trimmed_end(bare_input(raw), CharSet::AnySlash);
    split::lemma_last_in(path, CharSet::AnySlash);
    match split::last_in(path, CharSet::AnySlash) {
        Some(i) => {
            assert(!CharSet::AnySlash.has(path.last()));
            assert(CharSet::AnySlash.has(path[i]));
            assert forall|j: int| 0 <= j < name.len() implies name[j] != '/' && name[j]
                != '\\' by {
                assert(!CharSet::AnySlash.has(path[i + 1 + j]));
            }
        },
        None => {
            assert forall|j: int| 0 <= j < name.len() implies name[j] != '/' && name[j]
                != '\\' by {
                assert(!CharSet::AnySlash.has(path[j]));
            }
        },
    }
}

/// What was trimmed does not end with what was trimmed away.
proof fn lemma_trimmed_end(s: Seq<char>, set: CharSet)
    ensures
        text::trim_end(s, set).len() > 0 ==> !set.has(text::trim_end(s, set).last()),
    decreases s.len(),
{
    if s.len() > 0 && set.has(s.last()) {
        lemma_trimmed_end(s.drop_last(), set);
    }
}

// ---------------------------------------------------------------------------
// Laws
// ---------------------------------------------------------------------------

/// Only identities with high or medium confidence are tracked, and none that the
/// user has turned off.
pub proof fn law_only_wanted_identities(
    rules: Rules,
    procs: Seq<identity::ProcessView>,
    fps: Seq<Seq<char>>,
    answers: Seq<Option<identity::IdentityView>>,
    k: int,
)
    requires
        0 <= k < resolved(rules, procs, fps, answers).identities.len(),
    ensures
        resolved(rules, procs, fps, answers).identities[k].confidence.auto(),
        !keyed::has_key(rules.ignored, resolved(rules, procs, fps, answers).identities[k].id),
{
    collected(rules, procs, fps, answers, procs.len() as int).identities.lemma_filter_pred(
        |i: identity::IdentityView| kept(rules.ignored, i),
        k,
    );
}

/// No detection waits for the user whose identity the user has turned off.
pub proof fn law_no_ignored_pending(
    rules: Rules,
    procs: Seq<identity::ProcessView>,
    fps: Seq<Seq<char>>,
    answers: Seq<Option<identity::IdentityView>>,
    k: int,
)
    requires
        0 <= k < resolved(rules, procs, fps, answers).pending.len(),
    ensures
        shown(rules.ignored, resolved(rules, procs, fps, answers).pending[k]),
{
    collected(rules, procs, fps, answers, procs.len() as int).pending.lemma_filter_pred(
        |p: identity::PendingView| shown(rules.ignored, p),
        k,
    );
}

/// No game is tracked twice.
pub proof fn law_resolved_ids_distinct(
    rules: Rules,
    procs: Seq<identity::ProcessView>,
    fps: Seq<Seq<char>>,
    answers: Seq<Option<identity::IdentityView>>,
)
    ensures
        identity::ids_distinct(resolved(rules, procs, fps, answers).identities),
{
    lemma_collected_distinct(rules, procs, fps, answers, procs.len() as int);
    lemma_filter_distinct(
        collected(rules, procs, fps, answers, procs.len() as int).identities,
        |i: identity::IdentityView| kept(rules.ignored, i),
    );
}

proof fn lemma_collected_distinct(
    rules: Rules,
    procs: Seq<identity::ProcessView>,
    fps: Seq<Seq<char>>,
    answers: Seq<Option<identity::IdentityView>>,
    n: int,
)
    ensures
        identity::ids_distinct(collected(rules, procs, fps, answers, n).identities),
    decreases n,
{
    if n <= 0 {
        platform::law_steam_ids_distinct(procs, rules.games, rules.host);
    } else {
        lemma_collected_distinct(rules, procs, fps, answers, n - 1);
        lemma_step_distinct(
            rules,
            collected(rules, procs, fps, answers, n - 1),
            procs[n - 1],
            fps[n - 1],
            answers[n - 1],
        );
    }
}

proof fn lemma_step_distinct(
    rules: Rules,
    so_far: Findings,
    p: identity::ProcessView,
    fp: Seq<char>,
    crowd: Option<identity::IdentityView>,
)
    requires
        identity::ids_distinct(so_far.identities),
    ensures
        identity::ids_distinct(step(rules, so_far, p, fp, crowd).identities),
{
    let list = so_far.identities;
    if let Some(m) = keyed::lookup(rules.mappings, fp) {
        identity::lemma_with_truth(list, mapped_identity(m, p.name, fp));
    }
    if let Some(id) = manual_match(rules.manual, p) {
        identity::lemma_with_truth(list, id);
    }
    if let Some(id) = crowd {
        identity::lemma_with_unique(list, id);
    }
    if let Some(id) = catalog::catalog_match(rules.catalog, p, rules.host.catalog_label()) {
        identity::lemma_with_unique(list, id);
    }
    if let Some(id) = detectable::detectable_match(rules.detectable, p) {
        law_absorb_keeps_games(list, id, p.name);
        identity::lemma_with_unique(list, id);
        let r = absorbed(list, id, p.name);
        if r != identity::with_unique(list, id) {
            assert forall|i: int, j: int| 0 <= i < j < r.len() implies (#[trigger] r[i]).id
                != (#[trigger] r[j]).id by {
                assert(r[i].id == list[i].id && r[j].id == list[j].id);
            }
        }
    }
}

/// The identity but for its confidence.
pub open spec fn same_but_confidence(
    a: identity::IdentityView,
    b: identity::IdentityView,
) -> bool {
    a == (identity::IdentityView { confidence: a.confidence, ..b })
}

/// A match with the Discord catalog never turns an identity into another game:
/// what was there stays, but for a confidence; and where the match has a Steam
/// id, identities with another Steam id, or none, stay as they are.
pub proof fn law_absorb_keeps_games(
    list: Seq<identity::IdentityView>,
    d: identity::IdentityView,
    name: Seq<char>,
)
    ensures
        list.len() <= absorbed(list, d, name).len() <= list.len() + 1,
        absorbed(list, d, name).len() > list.len() ==> absorbed(list, d, name)
            == identity::with_unique(list, d),
        forall|k: int|
            0 <= k < list.len() ==> same_but_confidence(
                #[trigger] absorbed(list, d, name)[k],
                list[k],
            ),
        forall|k: int|
            0 <= k < list.len() && d.steam_app_id is Some && list[k].steam_app_id
                != d.steam_app_id ==> #[trigger] absorbed(list, d, name)[k] == list[k],
{
    match d.steam_app_id {
        Some(sid) => {
            search::lemma_first_where(
                list,
                |i: identity::IdentityView| i.steam_app_id == Some(sid),
            );
        },
        None => {
            search::lemma_first_where(list, |i: identity::IdentityView| by_path_as(i, name));
        },
    }
}

/// Filtering keeps the ids of a list distinct.
proof fn lemma_filter_distinct(
    list: Seq<identity::IdentityView>,
    f: spec_fn(identity::IdentityView) -> bool,
)
    requires
        identity::ids_distinct(list),
    ensures
        identity::ids_distinct(list.filter(f)),
        forall|i: int|
            0 <= i < list.filter(f).len() ==> identity::has_id(
                list,
                (#[trigger] list.filter(f)[i]).id,
            ),
    decreases list.len(),
{
    reveal(Seq::filter);
    if list.len() > 0 {
        let t = list.drop_last();
        assert forall|i: int, j: int| 0 <= i < j < t.len() implies (#[trigger] t[i]).id
            != (#[trigger] t[j]).id by {
            assert(t[i] == list[i] && t[j] == list[j]);
        }
        lemma_filter_distinct(t, f);
        let u = t.filter(f);
        let r = list.filter(f);
        let n = list.len() - 1;
        assert forall|i: int| 0 <= i < u.len() implies identity::has_id(list, (#[trigger] u[i]).id)
            && u[i].id != list[n].id by {
            let k = choose|k: int| 0 <= k < t.len() && (#[trigger] t[k]).id == u[i].id;
            assert(list[k].id == u[i].id);
            assert(list[k].id != list[n].id);
        }
        assert forall|i: int| 0 <= i < r.len() implies identity::has_id(
            list,
            (#[trigger] r[i]).id,
        ) by {
            if i < u.len() {
                assert(r[i] == u[i]);
            } else {
                assert(r[i] == list[n]);
            }
        }
        assert forall|i: int, j: int| 0 <= i < j < r.len() implies (#[trigger] r[i]).id
            != (#[trigger] r[j]).id by {
            assert(r[i] == u[i]);
            if j < u.len() {
                assert(r[j] == u[j]);
            } else {
                assert(r[j] == list[n]);
            }
        }
    }
}

/// A process that nothing knows changes nothing: it is not even offered to the
/// user.
pub proof fn law_unknown_process_is_passed_over(
    rules: Rules,
    so_far: Findings,
    p: identity::ProcessView,
    fp: Seq<char>,
)
    requires
        keyed::lookup(rules.mappings, fp) is None,
        manual_match(rules.manual, p) is None,
        catalog::catalog_match(rules.catalog, p, rules.host.catalog_label()) is None,
        detectable::detectable_match(rules.detectable, p) is None,
    ensures
        step(rules, so_far, p, fp, None) == so_far,
{
}

/// What the user has said of a process comes before the crowd and the catalogs:
/// these do not change what the process adds.
pub proof fn law_user_comes_first(
    rules: Rules,
    other: Rules,
    so_far: Findings,
    p: identity::ProcessView,
    fp: Seq<char>,
    crowd: Option<identity::IdentityView>,
)
    requires
        rules.mappings == other.mappings,
        rules.manual == other.manual,
        keyed::lookup(rules.mappings, fp) is Some || manual_match(rules.manual, p) is Some,
    ensures
        step(rules, so_far, p, fp, crowd) == step(other, so_far, p, fp, None),
{
}

/// A denied process, whatever its path and command line and wherever it stands,
/// changes nothing of what is found.
pub proof fn law_denied_process_changes_nothing(
    rules: Rules,
    procs: Seq<identity::ProcessView>,
    fps: Seq<Seq<char>>,
    answers: Seq<Option<identity::IdentityView>>,
    d: identity::ProcessView,
    fp: Seq<char>,
    answer: Option<identity::IdentityView>,
    at: int,
)
    requires
        deny::denied(d.name),
        0 <= at <= procs.len(),
        fps.len() == procs.len(),
        answers.len() == procs.len(),
    ensures
        resolved(
            rules,
            procs.insert(at, d),
            fps.insert(at, fp),
            answers.insert(at, answer),
        ) == resolved(rules, procs, fps, answers),
{
    lemma_denied_inserted(rules, procs, fps, answers, d, fp, answer, at, procs.len() as int);
}

proof fn lemma_denied_inserted(
    rules: Rules,
    procs: Seq<identity::ProcessView>,
    fps: Seq<Seq<char>>,
    answers: Seq<Option<identity::IdentityView>>,
    d: identity::ProcessView,
    fp: Seq<char>,
    answer: Option<identity::IdentityView>,
    at: int,
    n: int,
)
    requires
        deny::denied(d.name),
        0 <= at <= procs.len(),
        fps.len() == procs.len(),
        answers.len() == procs.len(),
        0 <= n <= procs.len(),
    ensures
        collected(
            rules,
            procs.insert(at, d),
            fps.insert(at, fp),
            answers.insert(at, answer),
            if n < at {
                n
            } else {
                n + 1
            },
        ) == collected(rules, procs, fps, answers, n),
    decreases n,
{
    let ps = procs.insert(at, d);
    let fs = fps.insert(at, fp);
    let ans = answers.insert(at, answer);
    if n == 0 {
        platform::law_denied_is_no_steam_game(procs, rules.games, rules.host, d, at);
        assert(collected(rules, ps, fs, ans, 0) == collected(rules, procs, fps, answers, 0));
        if at == 0 {
            assert(ps[0] == d);
        }
    } else {
        lemma_denied_inserted(rules, procs, fps, answers, d, fp, answer, at, n - 1);
        if n < at {
            assert(ps[n - 1] == procs[n - 1] && fs[n - 1] == fps[n - 1] && ans[n - 1]
                == answers[n - 1]);
        } else if n == at {
            assert(ps[n - 1] == procs[n - 1] && fs[n - 1] == fps[n - 1] && ans[n - 1]
                == answers[n - 1]);
            assert(collected(rules, ps, fs, ans, n) == collected(rules, procs, fps, answers, n));
            assert(ps[n] == d);
        } else {
            assert(ps[n] == procs[n - 1] && fs[n] == fps[n - 1] && ans[n] == answers[n - 1]);
        }
    }
}

/// What the user has said is the truth: a process that is not denied and that the
/// user has named is tracked under its id, whatever else has seen it, unless the
/// user has turned the id off.
pub proof fn law_ground_truth(
    rules: Rules,
    procs: Seq<identity::ProcessView>,
    fps: Seq<Seq<char>>,
    answers: Seq<Option<identity::IdentityView>>,
    j: int,
)
    requires
        0 <= j < procs.len(),
        !deny::denied(procs[j].name),
        named_by_user(rules, procs[j], fps[j]) is Some,
        !keyed::has_key(rules.ignored, named_by_user(rules, procs[j], fps[j])->0.id),
    ensures
        identity::has_id(
            resolved(rules, procs, fps, answers).identities,
            named_by_user(rules, procs[j], fps[j])->0.id,
        ),
{
    let x = named_by_user(rules, procs[j], fps[j])->0.id;
    let n = procs.len() as int;
    lemma_named_stays(rules, procs, fps, answers, j, n);
    let list = collected(rules, procs, fps, answers, n).identities;
    let f = |i: identity::IdentityView| kept(rules.ignored, i);
    let k = choose|k: int|
        0 <= k < list.len() && (#[trigger] list[k]).id == x && list[k].confidence.auto();
    list.lemma_filter_contains(f, k);
    let m = choose|m: int| 0 <= m < list.filter(f).len() && list.filter(f)[m] == list[k];
    assert(resolved(rules, procs, fps, answers).identities[m].id == x);
}

proof fn lemma_named_stays(
    rules: Rules,
    procs: Seq<identity::ProcessView>,
    fps: Seq<Seq<char>>,
    answers: Seq<Option<identity::IdentityView>>,
    j: int,
    n: int,
)
    requires
        0 <= j < n <= procs.len(),
        !deny::denied(procs[j].name),
        named_by_user(rules, procs[j], fps[j]) is Some,
    ensures
        identity::is_tracked(
            collected(rules, procs, fps, answers, n).identities,
            named_by_user(rules, procs[j], fps[j])->0.id,
        ),
    decreases n,
{
    let before = collected(rules, procs, fps, answers, n - 1);
    let x = named_by_user(rules, procs[j], fps[j])->0.id;
    if j == n - 1 {
        identity::lemma_with_truth(
            before.identities,
            named_by_user(rules, procs[j], fps[j])->0,
        );
    } else {
        lemma_named_stays(rules, procs, fps, answers, j, n - 1);
        lemma_step_keeps(rules, before, procs[n - 1], fps[n - 1], answers[n - 1], x);
    }
}

/// What is tracked stays so when another process is looked at.
pub proof fn lemma_step_keeps(
    rules: Rules,
    so_far: Findings,
    p: identity::ProcessView,
    fp: Seq<char>,
    crowd: Option<identity::IdentityView>,
    x: Seq<char>,
)
    requires
        identity::is_tracked(so_far.identities, x),
    ensures
        identity::is_tracked(step(rules, so_far, p, fp, crowd).identities, x),
{
    let list = so_far.identities;
    let r = step(rules, so_far, p, fp, crowd).identities;
    let k = choose|k: int|
        0 <= k < list.len() && (#[trigger] list[k]).id == x && list[k].confidence.auto();
    if let Some(id) = named_by_user(rules, p, fp) {
        identity::lemma_with_truth(list, id);
    }
    if let Some(id) = detectable::detectable_match(rules.detectable, p) {
        match id.steam_app_id {
            Some(sid) => search::lemma_first_where(
                list,
                |i: identity::IdentityView| i.steam_app_id == Some(sid),
            ),
            None => search::lemma_first_where(
                list,
                |i: identity::IdentityView| by_path_as(i, p.name),
            ),
        }
    }
    if !(!deny::denied(p.name) && named_by_user(rules, p, fp) is Some) {
        assert(r[k].id == x && r[k].confidence.auto());
    }
}

/// Where the crowd knows no games, it has given no answer.
pub proof fn law_silent_crowd(
    pipeline: IdentityPipeline,
    procs: Seq<identity::ProcessView>,
    fps: Seq<Seq<char>>,
    answers: Seq<Option<identity::IdentityView>>,
)
    requires
        pipeline.silent(),
        pipeline.asked(procs, fps, answers),
    ensures
        answers == unanswered(procs.len()),
{
    assert forall|j: int| 0 <= j < procs.len() implies #[trigger] answers[j] is None by {
        if !user_decides(pipeline.rules(), procs[j], fps[j]) {
            assert(pipeline.crowd.says(fps[j], answers[j]));
        }
    }
}

} // verus!
