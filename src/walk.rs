use vstd::prelude::*;

use crate::materialize::{
    lemma_step_idempotent,
    lemma_step_mirrors,
    mirrored,
    planned,
    runs,
    supported,
    EntryMeta,
    FsModel,
};
use crate::paths::{accumulated, components, lemma_accumulated_grows, lemma_components_nonempty};

verus! {

/// The target paths that a walk of `path` visits under `root`, shallowest first.
pub open spec fn targets_of(root: Seq<u8>, path: Seq<u8>) -> Seq<Seq<u8>> {
    Seq::new(components(path).len(), |k: int| accumulated(root, components(path), (k + 1) as nat))
}

/// The tree before step `k` of a walk from `before` whose steps went through `steps`.
pub open spec fn start_of(before: FsModel, steps: Seq<Seq<FsModel>>, k: int) -> FsModel {
    if k <= 0 {
        before
    } else {
        steps[k - 1][3]
    }
}

/// `steps` is a walk from `before` in which every step succeeded: step `k`
/// ran the operations that make `targets[k]` mirror `metas[k]`, starting from
/// where step `k - 1` ended.
pub open spec fn walk_runs(
    before: FsModel,
    targets: Seq<Seq<u8>>,
    metas: Seq<EntryMeta>,
    steps: Seq<Seq<FsModel>>,
) -> bool {
    &&& metas.len() == targets.len()
    &&& steps.len() == targets.len()
    &&& forall|k: int|
        0 <= k < targets.len() ==> runs(
            start_of(before, steps, k),
            planned(targets[k], metas[k]),
            #[trigger] steps[k],
        )
}

/// The step targets of a walk are pairwise distinct.
proof fn lemma_targets_distinct(root: Seq<u8>, path: Seq<u8>, j: int, k: int)
    requires
        0 <= j < k < components(path).len(),
    ensures
        targets_of(root, path)[j] != targets_of(root, path)[k],
{
    lemma_components_nonempty(path);
    lemma_accumulated_grows(root, components(path), (j + 1) as nat, (k + 1) as nat);
}

/// After a walk in which every step succeeded, every prefix of the path
/// exists under the target root with exactly the kind, owner, group and
/// permission bits that its source entry had.
pub proof fn lemma_walk_mirrors_prefixes(
    root: Seq<u8>,
    path: Seq<u8>,
    before: FsModel,
    metas: Seq<EntryMeta>,
    steps: Seq<Seq<FsModel>>,
)
    requires
        forall|k: int| 0 <= k < metas.len() ==> supported(#[trigger] metas[k]),
        walk_runs(before, targets_of(root, path), metas, steps),
    ensures
        forall|k: int|
            0 <= k < metas.len() ==> {
                &&& start_of(before, steps, metas.len() as int).contains_key(
                    #[trigger] targets_of(root, path)[k],
                )
                &&& start_of(before, steps, metas.len() as int)[targets_of(root, path)[k]] == metas[k]
            },
{
    lemma_walk_prefix(root, path, before, metas, steps, metas.len() as int);
}

/// The first `j` steps of a successful walk leave their targets mirrored.
proof fn lemma_walk_prefix(
    root: Seq<u8>,
    path: Seq<u8>,
    before: FsModel,
    metas: Seq<EntryMeta>,
    steps: Seq<Seq<FsModel>>,
    j: int,
)
    requires
        0 <= j <= metas.len(),
        forall|k: int| 0 <= k < metas.len() ==> supported(#[trigger] metas[k]),
        walk_runs(before, targets_of(root, path), metas, steps),
    ensures
        forall|k: int|
            0 <= k < j ==> {
                &&& start_of(before, steps, j).contains_key(#[trigger] targets_of(root, path)[k])
                &&& start_of(before, steps, j)[targets_of(root, path)[k]] == metas[k]
            },
    decreases j,
{
    if j > 0 {
        let ts = targets_of(root, path);
        let i = j - 1;
        lemma_walk_prefix(root, path, before, metas, steps, i);
        assert(supported(metas[i]));
        assert(runs(start_of(before, steps, i), planned(ts[i], metas[i]), steps[i]));
        lemma_step_mirrors(ts[i], metas[i], steps[i]);
        assert(mirrored(start_of(before, steps, i), ts[i], metas[i], start_of(before, steps, j)));
        assert forall|k: int| 0 <= k < j implies {
            &&& start_of(before, steps, j).contains_key(#[trigger] ts[k])
            &&& start_of(before, steps, j)[ts[k]] == metas[k]
        } by {
            if k < i {
                lemma_targets_distinct(root, path, k, i);
            }
        }
    }
}

/// A second successful walk from a tree where every target already mirrors
/// its entry leaves the tree as it was after its first `j` steps.
proof fn lemma_walk_quiet(
    ts: Seq<Seq<u8>>,
    done: FsModel,
    metas: Seq<EntryMeta>,
    second: Seq<Seq<FsModel>>,
    j: int,
)
    requires
        0 <= j <= metas.len(),
        forall|k: int| 0 <= k < metas.len() ==> supported(#[trigger] metas[k]),
        forall|k: int| 0 <= k < ts.len() ==> done.contains_key(#[trigger] ts[k]) && done[ts[k]] == metas[k],
        walk_runs(done, ts, metas, second),
    ensures
        start_of(done, second, j) == done,
    decreases j,
{
    if j > 0 {
        let i = j - 1;
        lemma_walk_quiet(ts, done, metas, second, i);
        assert(supported(metas[i]));
        assert(runs(start_of(done, second, i), planned(ts[i], metas[i]), second[i]));
        assert(done.contains_key(ts[i]));
        lemma_step_idempotent(ts[i], metas[i], done, second[i]);
    }
}

/// Walking the same path a second time, with the same source entries, can
/// succeed at every step, and any second walk that succeeds leaves the
/// target tree exactly as the first one left it.
pub proof fn lemma_walk_idempotent(
    root: Seq<u8>,
    path: Seq<u8>,
    before: FsModel,
    metas: Seq<EntryMeta>,
    first: Seq<Seq<FsModel>>,
    second: Seq<Seq<FsModel>>,
)
    requires
        forall|k: int| 0 <= k < metas.len() ==> supported(#[trigger] metas[k]),
        walk_runs(before, targets_of(root, path), metas, first),
    ensures
        ({
            let done = start_of(before, first, metas.len() as int);
            walk_runs(
                done,
                targets_of(root, path),
                metas,
                Seq::new(metas.len(), |k: int| seq![done, done, done, done]),
            )
        }),
        walk_runs(start_of(before, first, metas.len() as int), targets_of(root, path), metas, second)
            ==> start_of(start_of(before, first, metas.len() as int), second, metas.len() as int)
            == start_of(before, first, metas.len() as int),
{
    let ts = targets_of(root, path);
    let n = metas.len() as int;
    let done = start_of(before, first, n);
    lemma_walk_mirrors_prefixes(root, path, before, metas, first);
    let quiet = Seq::new(metas.len(), |k: int| seq![done, done, done, done]);
    assert forall|k: int| 0 <= k < ts.len() implies runs(
        start_of(done, quiet, k),
        planned(ts[k], metas[k]),
        #[trigger] quiet[k],
    ) by {
        assert(done.contains_key(ts[k]));
        lemma_step_idempotent(ts[k], metas[k], done, quiet[k]);
        assert(start_of(done, quiet, k) == done);
    }
    if walk_runs(done, ts, metas, second) {
        lemma_walk_quiet(ts, done, metas, second, n);
    }
}

} // verus!
