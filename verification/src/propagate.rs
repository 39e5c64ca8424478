//! Change propagation: what a batch of changed documents means for the two
//! downstream indexers — the structural indexer and the semantic indexer —
//! and how a full rebuild replaces the known-files set before either
//! indexer hears of the batch.
//!
//! The indexers themselves are external collaborators: the caller delivers
//! a plan to whichever of them is configured, skipping an absent one
//! silently, and never while holding a store lock.

use vstd::prelude::*;

use crate::documents::DocumentInfo;
use crate::documents::DocumentInfoView;
use crate::identity::FileIdentity;
use crate::identity::FileIdentityView;
use crate::store::DocumentsState;
use crate::store::rebuilt;

verus! {

/// A batch bound for the indexers, with each indexer's initial-load flag.
pub struct EnqueuePlan {
    pub docs: Vec<DocumentInfo>,
    pub structural_initial: bool,
    pub semantic_initial: bool,
}

/// The identities of a batch.
pub open spec fn uris_of(docs: Seq<DocumentInfoView>) -> Seq<FileIdentityView> {
    docs.map_values(|d: DocumentInfoView| d.uri)
}

/// The plan for a live watcher batch: the structural indexer takes it as
/// an initial load, the semantic indexer does not.
pub fn plan_watch_batch(docs: Vec<DocumentInfo>) -> (r: EnqueuePlan)
    ensures
        r.docs == docs,
        r.structural_initial == true,
        r.semantic_initial == false,
{
    EnqueuePlan { docs, structural_initial: true, semantic_initial: false }
}

/// The plan for a single edited document: neither indexer takes it as an
/// initial load.
pub fn plan_edit_batch(docs: Vec<DocumentInfo>) -> (r: EnqueuePlan)
    ensures
        r.docs == docs,
        r.structural_initial == false,
        r.semantic_initial == false,
{
    EnqueuePlan { docs, structural_initial: false, semantic_initial: false }
}

/// The full rebuild, applied to the store: the known-files set is replaced
/// outright by the identities of the freshly discovered batch and the
/// caches are marked stale, before the plan — semantic side flagged as
/// initial load — is handed back for delivery.  The replacement
/// happens-before either indexer sees the batch.
pub fn apply_full_rebuild(state: &mut DocumentsState, docs: Vec<DocumentInfo>) -> (r: EnqueuePlan)
    requires
        old(state).wf(),
    ensures
        final(state).wf(),
        final(state)@ == rebuilt(old(state)@, uris_of(docs.deep_view())),
        r.docs == docs,
        r.structural_initial == false,
        r.semantic_initial == true,
{
    let n = docs.len();
    let mut ids: Vec<FileIdentity> = Vec::new();
    let mut i: usize = 0;
    while i < n
        invariant
            n == docs@.len(),
            0 <= i <= n,
            ids@.len() == i,
            forall|j: int| 0 <= j < i ==> ids.deep_view()[j] == docs.deep_view()[j].uri,
        decreases n - i,
    {
        let ghost prevv = ids@;
        let ghost prevd = ids.deep_view();
        let d = docs[i].uri.duplicate();
        let ghost dv = d@;
        ids.push(d);
        proof {
            assert forall|j: int| 0 <= j < i + 1 implies ids.deep_view()[j] == docs.deep_view()[j].uri by {
                if j < i {
                    assert(ids@[j] == prevv[j]);
                    assert(ids.deep_view()[j] == prevd[j]);
                } else {
                    assert(ids.deep_view()[j] == dv);
                }
            }
        }
        i += 1;
    }
    proof {
        assert(ids.deep_view() =~= uris_of(docs.deep_view()));
    }
    state.rebuild_known_files(ids);
    EnqueuePlan { docs, structural_initial: false, semantic_initial: true }
}

} // verus!
