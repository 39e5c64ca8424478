//! Classification of filesystem-watcher events.  The raw OS event, already
//! reduced to a kind and its paths, is filtered against the blacklist and
//! the validity predicate (an external collaborator whose verdicts the
//! caller passes in) and turned into the one decision the event warrants.

use vstd::prelude::*;

use crate::paths::WsPath;
use crate::paths::WsPathView;
use crate::paths::inside_blacklisted_spec;
use crate::paths::is_this_inside_blacklisted_dir;

verus! {

/// The kinds of filesystem events the watcher reacts to; everything else
/// the OS reports is `Other` and is dropped.
#[derive(Clone, Copy, PartialEq, Eq, Structural, Debug)]
pub enum FsEventKind {
    CreateFile,
    ModifyContent,
    RemoveFile,
    Other,
}

/// What an event asks the caller to do.
pub enum WatchDecision {
    /// Re-index these surviving paths; when they were just created, they
    /// also join the known-files set first.
    Reindex { paths: Vec<WsPath>, newly_created: bool },
    /// A file that mattered was removed: rediscover every workspace folder
    /// rather than guess what depended on it.
    FullRebuild,
    /// Nothing to do.
    Ignore,
}

/// The paths of an event that survive filtering: outside every blacklisted
/// directory and passing the validity predicate.
pub open spec fn surviving(paths: Seq<WsPathView>, valid: Seq<bool>) -> Seq<WsPathView>
    decreases paths.len(),
{
    if paths.len() == 0 {
        Seq::empty()
    } else {
        let rest = surviving(paths.drop_last(), valid.drop_last());
        if !inside_blacklisted_spec(paths.last().parts) && valid.len() > 0 && valid.last() {
            rest.push(paths.last())
        } else {
            rest
        }
    }
}

/// Whether any path of the event lies outside every blacklisted directory.
pub open spec fn any_outside_blacklist(paths: Seq<WsPathView>) -> bool {
    exists|i: int| 0 <= i < paths.len() && !inside_blacklisted_spec((#[trigger] paths[i]).parts)
}

/// Classifies one watcher event.  `valid` gives, path by path, what the
/// validity predicate said; blacklist filtering overrides it either way.
pub fn classify_event(kind: FsEventKind, paths: &Vec<WsPath>, valid: &Vec<bool>) -> (r:
    WatchDecision)
    requires
        valid@.len() == paths@.len(),
    ensures
        (kind is CreateFile || kind is ModifyContent) && surviving(paths.deep_view(), valid@).len()
            == 0 ==> r is Ignore,
        (kind is CreateFile || kind is ModifyContent) && surviving(paths.deep_view(), valid@).len()
            > 0 ==> (r matches WatchDecision::Reindex { paths: ps, newly_created: nc }
            && ps.deep_view() == surviving(paths.deep_view(), valid@) && nc == (
        kind is CreateFile)),
        kind is RemoveFile && any_outside_blacklist(paths.deep_view()) ==> r is FullRebuild,
        kind is RemoveFile && !any_outside_blacklist(paths.deep_view()) ==> r is Ignore,
        kind is Other ==> r is Ignore,
{
    match kind {
        FsEventKind::CreateFile | FsEventKind::ModifyContent => {
            let n = paths.len();
            let mut survivors: Vec<WsPath> = Vec::new();
            let mut i: usize = 0;
            proof {
                assert(paths.deep_view().take(0) =~= Seq::<WsPathView>::empty());
                assert(valid@.take(0) =~= Seq::<bool>::empty());
                assert(survivors.deep_view() =~= surviving(
                    paths.deep_view().take(0),
                    valid@.take(0),
                ));
            }
            while i < n
                invariant
                    n == paths@.len(),
                    valid@.len() == n,
                    0 <= i <= n,
                    survivors.deep_view() == surviving(
                        paths.deep_view().take(i as int),
                        valid@.take(i as int),
                    ),
                decreases n - i,
            {
                proof {
                    assert(paths.deep_view().take(i + 1).drop_last() =~= paths.deep_view().take(
                        i as int,
                    ));
                    assert(valid@.take(i + 1).drop_last() =~= valid@.take(i as int));
                    assert(paths.deep_view().take(i + 1).last() == paths.deep_view()[i as int]);
                    assert(valid@.take(i + 1).last() == valid@[i as int]);
                }
                if valid[i] && !is_this_inside_blacklisted_dir(&paths[i]) {
                    survivors.push(paths[i].duplicate());
                    proof {
                        assert(survivors.deep_view() =~= surviving(
                            paths.deep_view().take(i + 1),
                            valid@.take(i + 1),
                        ));
                    }
                } else {
                    assert(survivors.deep_view() == surviving(
                        paths.deep_view().take(i + 1),
                        valid@.take(i + 1),
                    ));
                }
                i += 1;
            }
            proof {
                assert(paths.deep_view().take(n as int) =~= paths.deep_view());
                assert(valid@.take(n as int) =~= valid@);
            }
            if survivors.len() == 0 {
                WatchDecision::Ignore
            } else {
                let newly_created = match kind {
                    FsEventKind::CreateFile => true,
                    _ => false,
                };
                WatchDecision::Reindex { paths: survivors, newly_created }
            }
        },
        FsEventKind::RemoveFile => {
            let n = paths.len();
            let mut i: usize = 0;
            while i < n
                invariant
                    n == paths@.len(),
                    0 <= i <= n,
                    kind is RemoveFile,
                    forall|j: int|
                        0 <= j < i ==> inside_blacklisted_spec(
                            (#[trigger] paths.deep_view()[j]).parts,
                        ),
                decreases n - i,
            {
                if !is_this_inside_blacklisted_dir(&paths[i]) {
                    proof {
                        assert(!inside_blacklisted_spec(paths.deep_view()[i as int].parts));
                    }
                    return WatchDecision::FullRebuild;
                }
                i += 1;
            }
            WatchDecision::Ignore
        },
        FsEventKind::Other => WatchDecision::Ignore,
    }
}

/// Blacklist exclusion, at the watcher: a path inside a blacklisted or
/// hidden directory never survives classification, whatever the validity
/// predicate said about it.
pub proof fn lemma_surviving_not_blacklisted(
    paths: Seq<WsPathView>,
    valid: Seq<bool>,
    p: WsPathView,
)
    requires
        inside_blacklisted_spec(p.parts),
    ensures
        !surviving(paths, valid).contains(p),
    decreases paths.len(),
{
    if paths.len() > 0 {
        lemma_surviving_not_blacklisted(paths.drop_last(), valid.drop_last(), p);
        let rest = surviving(paths.drop_last(), valid.drop_last());
        if surviving(paths, valid).contains(p) {
            let i = choose|i: int|
                0 <= i < surviving(paths, valid).len() && surviving(paths, valid)[i] == p;
            if surviving(paths, valid).len() > rest.len() && i == rest.len() {
                assert(p == paths.last());
            } else {
                assert(rest[i] == p);
                assert(rest.contains(p));
            }
        }
    }
}

} // verus!
