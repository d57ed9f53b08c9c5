//! Game identities, the processes they are found by, and what the user has
//! said about them.

pub mod catalog;
pub mod catalog_laws;
pub mod deny;
pub mod detectable;
pub mod fingerprint;
pub mod resolver;
pub mod resolver_laws;
pub mod steam_library;

use vstd::prelude::*;

use crate::keyed::Keyed;
use crate::search;
use crate::text;
use crate::text::{copy_opt, same};

verus! {

/// How sure a detection is.
#[derive(Debug, Clone, Copy, PartialEq, Eq, Structural)]
pub enum Confidence {
    High,
    Medium,
    Low,
    Absent,
}

impl Confidence {
    /// Only these confidences are tracked without asking.
    pub open spec fn auto(self) -> bool {
        self == Confidence::High || self == Confidence::Medium
    }

    /// Whether a detection is tracked without asking.
    pub fn allows_auto_track(self) -> (r: bool)
        ensures
            r == self.auto(),
    {
        match self {
            Confidence::High => true,
            Confidence::Medium => true,
            Confidence::Low => false,
            Confidence::Absent => false,
        }
    }
}

/// A game, as it was detected.
#[derive(Debug)]
pub struct GameIdentity {
    /// `steam:<appid>`, `catalog:<id>`, `discord:<snowflake>`, `manual:<id>` or
    /// `user:<fingerprint>`
    pub id: String,
    pub title: String,
    pub steam_app_id: Option<u32>,
    pub exe: Option<String>,
    pub confidence: Confidence,
    pub source: String,
    pub fingerprint: Option<String>,
}

/// The mathematical value of a `GameIdentity`.
#[verifier::ext_equal]
pub struct IdentityView {
    pub id: Seq<char>,
    pub title: Seq<char>,
    pub steam_app_id: Option<u32>,
    pub exe: Option<Seq<char>>,
    pub confidence: Confidence,
    pub source: Seq<char>,
    pub fingerprint: Option<Seq<char>>,
}

impl View for GameIdentity {
    type V = IdentityView;

    open spec fn view(&self) -> IdentityView {
        IdentityView {
            id: self.id@,
            title: self.title@,
            steam_app_id: self.steam_app_id,
            exe: text::opt_view(self.exe),
            confidence: self.confidence,
            source: self.source@,
            fingerprint: text::opt_view(self.fingerprint),
        }
    }
}

impl Clone for GameIdentity {
    fn clone(&self) -> (r: Self)
        ensures
            r == *self,
    {
        GameIdentity {
            id: self.id.clone(),
            title: self.title.clone(),
            steam_app_id: self.steam_app_id,
            exe: copy_opt(&self.exe),
            confidence: self.confidence,
            source: self.source.clone(),
            fingerprint: copy_opt(&self.fingerprint),
        }
    }
}

/// The values of a list of identities.
pub open spec fn id_views(s: Seq<GameIdentity>) -> Seq<IdentityView> {
    s.map_values(|i: GameIdentity| i@)
}

/// A running process.
#[derive(Debug)]
pub struct ProcessSnapshot {
    pub pid: u32,
    pub name: String,
    pub exe_path: Option<String>,
    pub cmdline: Option<String>,
}

/// The mathematical value of a `ProcessSnapshot`.
#[verifier::ext_equal]
pub struct ProcessView {
    pub pid: u32,
    pub name: Seq<char>,
    pub exe_path: Option<Seq<char>>,
    pub cmdline: Option<Seq<char>>,
}

impl View for ProcessSnapshot {
    type V = ProcessView;

    open spec fn view(&self) -> ProcessView {
        ProcessView {
            pid: self.pid,
            name: self.name@,
            exe_path: text::opt_view(self.exe_path),
            cmdline: text::opt_view(self.cmdline),
        }
    }
}

impl Clone for ProcessSnapshot {
    fn clone(&self) -> (r: Self)
        ensures
            r == *self,
    {
        ProcessSnapshot {
            pid: self.pid,
            name: self.name.clone(),
            exe_path: copy_opt(&self.exe_path),
            cmdline: copy_opt(&self.cmdline),
        }
    }
}

/// The values of a list of processes.
pub open spec fn proc_views(s: Seq<ProcessSnapshot>) -> Seq<ProcessView> {
    s.map_values(|p: ProcessSnapshot| p@)
}

/// A detection that waits for the user to confirm it.
#[derive(Debug)]
pub struct PendingDetection {
    pub process_name: String,
    pub exe_path: Option<String>,
    pub fingerprint: String,
    pub suggested_title: String,
    /// The catalog or Discord identity, when known.
    pub identity_id: Option<String>,
}

/// The mathematical value of a `PendingDetection`.
#[verifier::ext_equal]
pub struct PendingView {
    pub process_name: Seq<char>,
    pub exe_path: Option<Seq<char>>,
    pub fingerprint: Seq<char>,
    pub suggested_title: Seq<char>,
    pub identity_id: Option<Seq<char>>,
}

impl View for PendingDetection {
    type V = PendingView;

    open spec fn view(&self) -> PendingView {
        PendingView {
            process_name: self.process_name@,
            exe_path: text::opt_view(self.exe_path),
            fingerprint: self.fingerprint@,
            suggested_title: self.suggested_title@,
            identity_id: text::opt_view(self.identity_id),
        }
    }
}

impl Clone for PendingDetection {
    fn clone(&self) -> (r: Self)
        ensures
            r == *self,
    {
        PendingDetection {
            process_name: self.process_name.clone(),
            exe_path: copy_opt(&self.exe_path),
            fingerprint: self.fingerprint.clone(),
            suggested_title: self.suggested_title.clone(),
            identity_id: copy_opt(&self.identity_id),
        }
    }
}

/// The values of a list of pending detections.
pub open spec fn pending_views(s: Seq<PendingDetection>) -> Seq<PendingView> {
    s.map_values(|p: PendingDetection| p@)
}

/// An identity that the user does not want tracked.
#[derive(Debug)]
pub struct IgnoredIdentity {
    pub identity_id: String,
    pub title: String,
}

impl Keyed for IgnoredIdentity {
    open spec fn key(self) -> Seq<char> {
        self.identity_id@
    }

    fn key_text(&self) -> &str {
        self.identity_id.as_str()
    }
}

impl Clone for IgnoredIdentity {
    fn clone(&self) -> (r: Self)
        ensures
            r == *self,
    {
        IgnoredIdentity { identity_id: self.identity_id.clone(), title: self.title.clone() }
    }
}

/// A row of the list of games that can be tracked.
#[derive(Debug)]
pub struct TrackableGame {
    pub id: String,
    pub title: String,
    pub steam_app_id: Option<u32>,
    pub source: String,
    pub tracking_enabled: bool,
}

/// The mathematical value of a `TrackableGame`.
#[verifier::ext_equal]
pub struct TrackableView {
    pub id: Seq<char>,
    pub title: Seq<char>,
    pub steam_app_id: Option<u32>,
    pub source: Seq<char>,
    pub tracking_enabled: bool,
}

impl View for TrackableGame {
    type V = TrackableView;

    open spec fn view(&self) -> TrackableView {
        TrackableView {
            id: self.id@,
            title: self.title@,
            steam_app_id: self.steam_app_id,
            source: self.source@,
            tracking_enabled: self.tracking_enabled,
        }
    }
}

impl Clone for TrackableGame {
    fn clone(&self) -> (r: Self)
        ensures
            r == *self,
    {
        TrackableGame {
            id: self.id.clone(),
            title: self.title.clone(),
            steam_app_id: self.steam_app_id,
            source: self.source.clone(),
            tracking_enabled: self.tracking_enabled,
        }
    }
}

/// A game that the user has entered.
#[derive(Debug)]
pub struct ManualGame {
    pub id: String,
    pub title: String,
    pub exe_name: String,
    pub path_hint: Option<String>,
    pub steam_app_id: Option<u32>,
}

/// The mathematical value of a `ManualGame`.
#[verifier::ext_equal]
pub struct ManualView {
    pub id: Seq<char>,
    pub title: Seq<char>,
    pub exe_name: Seq<char>,
    pub path_hint: Option<Seq<char>>,
    pub steam_app_id: Option<u32>,
}

impl View for ManualGame {
    type V = ManualView;

    open spec fn view(&self) -> ManualView {
        ManualView {
            id: self.id@,
            title: self.title@,
            exe_name: self.exe_name@,
            path_hint: text::opt_view(self.path_hint),
            steam_app_id: self.steam_app_id,
        }
    }
}

impl Clone for ManualGame {
    fn clone(&self) -> (r: Self)
        ensures
            r == *self,
    {
        ManualGame {
            id: self.id.clone(),
            title: self.title.clone(),
            exe_name: self.exe_name.clone(),
            path_hint: copy_opt(&self.path_hint),
            steam_app_id: self.steam_app_id,
        }
    }
}

/// The values of a list of manual games.
pub open spec fn manual_views(s: Seq<ManualGame>) -> Seq<ManualView> {
    s.map_values(|g: ManualGame| g@)
}

// ---------------------------------------------------------------------------
// Lists of identities
// ---------------------------------------------------------------------------

/// Some identity of the list has this id.
pub open spec fn has_id(list: Seq<IdentityView>, id: Seq<char>) -> bool {
    exists|i: int| 0 <= i < list.len() && (#[trigger] list[i]).id == id
}

/// No two identities of the list have the same id.
pub open spec fn ids_distinct(list: Seq<IdentityView>) -> bool {
    forall|i: int, j: int| 0 <= i < j < list.len() ==> (#[trigger] list[i]).id != (#[trigger] list[j]).id
}

/// The list with `id` at its end, unless an identity with that id is there.
pub open spec fn with_unique(list: Seq<IdentityView>, id: IdentityView) -> Seq<IdentityView> {
    if has_id(list, id.id) {
        list
    } else {
        list.push(id)
    }
}

/// Adding an identity keeps the ids distinct, and its id is then there.
pub proof fn lemma_with_unique(list: Seq<IdentityView>, id: IdentityView)
    ensures
        ids_distinct(list) ==> ids_distinct(with_unique(list, id)),
        has_id(with_unique(list, id), id.id),
{
    let r = with_unique(list, id);
    if !has_id(list, id.id) {
        assert(r[list.len() as int].id == id.id);
        if ids_distinct(list) {
            assert forall|i: int, j: int| 0 <= i < j < r.len() implies (#[trigger] r[i]).id
                != (#[trigger] r[j]).id by {
                assert(r[i] == list[i]);
            }
        }
    }
}

/// The list with an identity that the user vouches for: it takes the place of one
/// with its id that is not sure enough to be tracked; one that is stays; else the
/// identity stands at the end.
pub open spec fn with_truth(list: Seq<IdentityView>, id: IdentityView) -> Seq<IdentityView> {
    match search::first_where(list, |i: IdentityView| i.id == id.id) {
        Some(k) => if list[k].confidence.auto() {
            list
        } else {
            list.update(k, id)
        },
        None => list.push(id),
    }
}

/// An identity with this id is there, and sure enough to be tracked.
pub open spec fn is_tracked(list: Seq<IdentityView>, id: Seq<char>) -> bool {
    exists|i: int|
        0 <= i < list.len() && (#[trigger] list[i]).id == id && list[i].confidence.auto()
}

/// What the user vouches for keeps the ids distinct, is then tracked, and leaves
/// tracked what was tracked.
pub proof fn lemma_with_truth(list: Seq<IdentityView>, id: IdentityView)
    ensures
        ids_distinct(list) ==> ids_distinct(with_truth(list, id)),
        id.confidence.auto() ==> is_tracked(with_truth(list, id), id.id),
        forall|x: Seq<char>| is_tracked(list, x) ==> #[trigger] is_tracked(with_truth(list, id), x),
{
    let r = with_truth(list, id);
    let f = |i: IdentityView| i.id == id.id;
    search::lemma_first_where(list, f);
    match search::first_where(list, f) {
        Some(k) => {
            assert(r[k].id == id.id);
            assert forall|i: int| 0 <= i < list.len() && i != k implies #[trigger] r[i]
                == list[i] by {}
        },
        None => {
            assert(r[list.len() as int] == id);
            assert forall|i: int| 0 <= i < list.len() implies !f(#[trigger] list[i]) && r[i]
                == list[i] by {}
        },
    }
    if ids_distinct(list) {
        assert forall|i: int, j: int| 0 <= i < j < r.len() implies (#[trigger] r[i]).id
            != (#[trigger] r[j]).id by {
            assert(i < list.len());
            if j < list.len() {
                assert(r[i].id == list[i].id && r[j].id == list[j].id);
            } else {
                assert(!f(list[i]));
            }
        }
    }
    assert forall|x: Seq<char>| is_tracked(list, x) implies #[trigger] is_tracked(r, x) by {
        let i = choose|i: int|
            0 <= i < list.len() && (#[trigger] list[i]).id == x && list[i].confidence.auto();
        assert(r[i] == list[i]);
    }
}

/// Takes in an identity that the user vouches for.
pub fn push_truth(list: &mut Vec<GameIdentity>, id: GameIdentity)
    ensures
        id_views(final(list)@) == with_truth(id_views(old(list)@), id@),
{
    let ghost views = id_views(list@);
    let ghost f = |i: IdentityView| i.id == id@.id;
    let mut i: usize = 0;
    while i < list.len()
        invariant
            i <= list@.len(),
            views == id_views(list@),
            *list == *old(list),
            f == (|i: IdentityView| i.id == id@.id),
            forall|j: int| 0 <= j < i ==> !f(#[trigger] views[j]),
        decreases list.len() - i,
    {
        assert(views[i as int] == list@[i as int]@);
        if same(list[i].id.as_str(), id.id.as_str()) {
            proof {
                search::lemma_first_is(views, f, i as int);
            }
            if !list[i].confidence.allows_auto_track() {
                list.set(i, id);
                assert(id_views(list@) == views.update(i as int, id@));
            }
            return;
        }
        i = i + 1;
    }
    proof {
        search::lemma_first_where(views, f);
    }
    list.push(id);
    assert(id_views(list@) == views.push(id@));
}

/// Adds `id` at the end, unless an identity with that id is there.
pub fn push_unique(list: &mut Vec<GameIdentity>, id: GameIdentity)
    ensures
        id_views(final(list)@) == with_unique(id_views(old(list)@), id@),
{
    let ghost views = id_views(list@);
    let mut i: usize = 0;
    while i < list.len()
        invariant
            i <= list@.len(),
            views == id_views(list@),
            *list == *old(list),
            forall|j: int| 0 <= j < i ==> (#[trigger] views[j]).id != id@.id,
        decreases list.len() - i,
    {
        if same(list[i].id.as_str(), id.id.as_str()) {
            assert(views[i as int].id == id@.id);
            return;
        }
        i = i + 1;
    }
    list.push(id);
    assert(id_views(list@) == views.push(id@));
}

} // verus!
