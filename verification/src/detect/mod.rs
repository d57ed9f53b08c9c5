//! From running processes to the games they are.

pub mod platform;
pub mod process;
pub mod steam_laws;
pub mod steam_reaper;

use vstd::prelude::*;

use crate::identity;
use crate::identity::{Confidence, GameIdentity, ProcessSnapshot};
use crate::search;
use crate::text;
use crate::text::same_ignoring_case;

verus! {

/// The identity has an executable of this name, up to ASCII case.
pub open spec fn runs_as(i: identity::IdentityView, name: Seq<char>) -> bool {
    i.exe is Some && text::same_letters(i.exe->0, name)
}

/// The index of the first identity with high confidence.
pub open spec fn first_high(ids: Seq<identity::IdentityView>) -> Option<int> {
    search::first_where(ids, |i: identity::IdentityView| i.confidence == Confidence::High)
}

/// The index of the first identity that runs as the process in the foreground.
pub open spec fn first_in_foreground(
    ids: Seq<identity::IdentityView>,
    foreground_pid: Option<u32>,
    procs: Seq<identity::ProcessView>,
) -> Option<int> {
    match foreground_pid {
        Some(pid) => match search::first_where(
            procs,
            |p: identity::ProcessView| p.pid == pid,
        ) {
            Some(k) => search::first_where(
                ids,
                |i: identity::IdentityView| runs_as(i, procs[k].name),
            ),
            None => None,
        },
        None => None,
    }
}

/// The index of the identity that counts: the first with high confidence, else
/// the first that runs as the process in the foreground, else the first.
pub open spec fn primary_index(
    ids: Seq<identity::IdentityView>,
    foreground_pid: Option<u32>,
    procs: Seq<identity::ProcessView>,
) -> Option<int> {
    if ids.len() == 0 {
        None
    } else {
        match first_high(ids) {
            Some(i) => Some(i),
            None => match first_in_foreground(ids, foreground_pid, procs) {
                Some(i) => Some(i),
                None => Some(0),
            },
        }
    }
}

fn high_index(identities: &[GameIdentity]) -> (r: Option<usize>)
    ensures
        match r {
            Some(i) => i < identities@.len() && first_high(identity::id_views(identities@)) == Some(
                i as int,
            ),
            None => first_high(identity::id_views(identities@)) is None,
        },
{
    let ghost ids = identity::id_views(identities@);
    let ghost f = |i: identity::IdentityView| i.confidence == Confidence::High;
    let mut i: usize = 0;
    while i < identities.len()
        invariant
            i <= identities@.len(),
            ids == identity::id_views(identities@),
            f == (|i: identity::IdentityView| i.confidence == Confidence::High),
            forall|j: int| 0 <= j < i ==> !f(#[trigger] ids[j]),
        decreases identities.len() - i,
    {
        assert(ids[i as int] == identities@[i as int]@);
        if identities[i].confidence == Confidence::High {
            proof {
                search::lemma_first_is(ids, f, i as int);
            }
            return Some(i);
        }
        i = i + 1;
    }
    proof {
        search::lemma_first_where(ids, f);
    }
    None
}

fn process_index(processes: &[ProcessSnapshot], pid: u32) -> (r: Option<usize>)
    ensures
        match r {
            Some(i) => i < processes@.len() && search::first_where(
                identity::proc_views(processes@),
                |p: identity::ProcessView| p.pid == pid,
            ) == Some(i as int),
            None => search::first_where(
                identity::proc_views(processes@),
                |p: identity::ProcessView| p.pid == pid,
            ) is None,
        },
{
    let ghost procs = identity::proc_views(processes@);
    let ghost f = |p: identity::ProcessView| p.pid == pid;
    let mut i: usize = 0;
    while i < processes.len()
        invariant
            i <= processes@.len(),
            procs == identity::proc_views(processes@),
            f == (|p: identity::ProcessView| p.pid == pid),
            forall|j: int| 0 <= j < i ==> !f(#[trigger] procs[j]),
        decreases processes.len() - i,
    {
        assert(procs[i as int] == processes@[i as int]@);
        if processes[i].pid == pid {
            proof {
                search::lemma_first_is(procs, f, i as int);
            }
            return Some(i);
        }
        i = i + 1;
    }
    proof {
        search::lemma_first_where(procs, f);
    }
    None
}

fn running_index(identities: &[GameIdentity], name: &str) -> (r: Option<usize>)
    ensures
        match r {
            Some(i) => i < identities@.len() && search::first_where(
                identity::id_views(identities@),
                |i: identity::IdentityView| runs_as(i, name@),
            ) == Some(i as int),
            None => search::first_where(
                identity::id_views(identities@),
                |i: identity::IdentityView| runs_as(i, name@),
            ) is None,
        },
{
    let ghost ids = identity::id_views(identities@);
    let ghost f = |i: identity::IdentityView| runs_as(i, name@);
    let mut i: usize = 0;
    while i < identities.len()
        invariant
            i <= identities@.len(),
            ids == identity::id_views(identities@),
            f == (|i: identity::IdentityView| runs_as(i, name@)),
            forall|j: int| 0 <= j < i ==> !f(#[trigger] ids[j]),
        decreases identities.len() - i,
    {
        assert(ids[i as int] == identities@[i as int]@);
        if let Some(exe) = &identities[i].exe {
            if same_ignoring_case(exe.as_str(), name) {
                proof {
                    search::lemma_first_is(ids, f, i as int);
                }
                return Some(i);
            }
        }
        i = i + 1;
    }
    proof {
        search::lemma_first_where(ids, f);
    }
    None
}

/// The identity that counts: the first with high confidence, else the first that
/// runs as the process in the foreground, else the first.
pub fn primary_identity<'a>(
    identities: &'a [GameIdentity],
    foreground_pid: Option<u32>,
    processes: &[ProcessSnapshot],
) -> (r: Option<&'a GameIdentity>)
    ensures
        match primary_index(
            identity::id_views(identities@),
            foreground_pid,
            identity::proc_views(processes@),
        ) {
            Some(i) => 0 <= i < identities@.len() && r == Some(&identities@[i]),
            None => r is None,
        },
{
    if identities.len() == 0 {
        return None;
    }
    if let Some(i) = high_index(identities) {
        return Some(&identities[i]);
    }
    if let Some(pid) = foreground_pid {
        if let Some(k) = process_index(processes, pid) {
            assert(identity::proc_views(processes@)[k as int] == processes@[k as int]@);
            if let Some(i) = running_index(identities, processes[k].name.as_str()) {
                return Some(&identities[i]);
            }
        }
    }
    Some(&identities[0])
}

/// High confidence comes first: where some identity has it, the one that counts
/// has it, whatever is in the foreground.
pub proof fn law_high_comes_first(
    ids: Seq<identity::IdentityView>,
    foreground_pid: Option<u32>,
    procs: Seq<identity::ProcessView>,
    k: int,
)
    requires
        0 <= k < ids.len(),
        ids[k].confidence == Confidence::High,
    ensures
        primary_index(ids, foreground_pid, procs) is Some,
        ids[primary_index(ids, foreground_pid, procs)->0].confidence == Confidence::High,
{
    search::lemma_first_where(
        ids,
        |i: identity::IdentityView| i.confidence == Confidence::High,
    );
}

/// The identity that counts is one of the list, and there is one unless it is empty.
pub proof fn lemma_primary(
    ids: Seq<identity::IdentityView>,
    foreground_pid: Option<u32>,
    procs: Seq<identity::ProcessView>,
)
    ensures
        primary_index(ids, foreground_pid, procs) is Some <==> ids.len() > 0,
        ids.len() > 0 ==> 0 <= primary_index(ids, foreground_pid, procs)->0 < ids.len(),
{
    search::lemma_first_where(
        ids,
        |i: identity::IdentityView| i.confidence == Confidence::High,
    );
    if foreground_pid is Some {
        let pid = foreground_pid->0;
        let is_it = |p: identity::ProcessView| p.pid == pid;
        search::lemma_first_where(procs, is_it);
        if search::first_where(procs, is_it) is Some {
            let front = search::first_where(procs, is_it)->0;
            search::lemma_first_where(
                ids,
                |i: identity::IdentityView| runs_as(i, procs[front].name),
            );
        }
    }
}

/// Of the identities with high confidence, the first counts.
pub proof fn law_first_high_counts(
    ids: Seq<identity::IdentityView>,
    foreground_pid: Option<u32>,
    procs: Seq<identity::ProcessView>,
    k: int,
)
    requires
        0 <= k < ids.len(),
        ids[k].confidence == Confidence::High,
        forall|j: int| 0 <= j < k ==> (#[trigger] ids[j]).confidence != Confidence::High,
    ensures
        primary_index(ids, foreground_pid, procs) == Some(k),
{
    search::lemma_first_is(
        ids,
        |i: identity::IdentityView| i.confidence == Confidence::High,
        k,
    );
}

/// Without high confidence, what runs in the foreground counts: the first identity
/// whose executable has the name of the process with the id in the foreground, up
/// to the case of letters.
pub proof fn law_foreground_comes_next(
    ids: Seq<identity::IdentityView>,
    procs: Seq<identity::ProcessView>,
    front: int,
    k: int,
)
    requires
        forall|j: int| 0 <= j < ids.len() ==> (#[trigger] ids[j]).confidence != Confidence::High,
        0 <= front < procs.len(),
        forall|j: int| 0 <= j < front ==> (#[trigger] procs[j]).pid != procs[front].pid,
        0 <= k < ids.len(),
        ids[k].exe is Some,
        text::lower(ids[k].exe->0) == text::lower(procs[front].name),
        forall|j: int|
            0 <= j < k ==> (#[trigger] ids[j]).exe is None || text::lower(ids[j].exe->0)
                != text::lower(procs[front].name),
    ensures
        primary_index(ids, Some(procs[front].pid), procs) == Some(k),
{
    let pid = procs[front].pid;
    search::lemma_first_where(
        ids,
        |i: identity::IdentityView| i.confidence == Confidence::High,
    );
    search::lemma_first_is(procs, |p: identity::ProcessView| p.pid == pid, front);
    search::lemma_first_is(ids, |i: identity::IdentityView| runs_as(i, procs[front].name), k);
}

/// The identity runs as a process with this id.
pub open spec fn runs_in(
    i: identity::IdentityView,
    pid: Option<u32>,
    procs: Seq<identity::ProcessView>,
) -> bool {
    exists|j: int|
        0 <= j < procs.len() && Some((#[trigger] procs[j]).pid) == pid && i.exe is Some
            && text::lower(i.exe->0) == text::lower(procs[j].name)
}

/// Where no identity has high confidence or runs in the foreground, the first one
/// counts; without identities none does.
pub proof fn law_first_otherwise(
    ids: Seq<identity::IdentityView>,
    foreground_pid: Option<u32>,
    procs: Seq<identity::ProcessView>,
)
    requires
        forall|j: int|
            0 <= j < ids.len() ==> (#[trigger] ids[j]).confidence != Confidence::High && !runs_in(
                ids[j],
                foreground_pid,
                procs,
            ),
    ensures
        primary_index(ids, foreground_pid, procs) == (if ids.len() == 0 {
            None
        } else {
            Some(0int)
        }),
{
    search::lemma_first_where(
        ids,
        |i: identity::IdentityView| i.confidence == Confidence::High,
    );
    if foreground_pid is Some {
        let pid = foreground_pid->0;
        let is_it = |p: identity::ProcessView| p.pid == pid;
        search::lemma_first_where(procs, is_it);
        if search::first_where(procs, is_it) is Some {
            let front = search::first_where(procs, is_it)->0;
            search::lemma_first_where(
                ids,
                |i: identity::IdentityView| runs_as(i, procs[front].name),
            );
        }
    }
}

} // verus!
