use vstd::prelude::*;

use crate::error::MaterializeError;
use crate::paths::AccumulatedPair;

verus! {

/// The kind of a filesystem entry, as far as materializing cares.
#[derive(Clone, Copy, Debug, PartialEq, Eq, Structural)]
pub enum EntryKind {
    Directory,
    File,
    /// A symbolic link, device, socket or anything else: never materialized.
    Other,
}

impl EntryKind {
    /// The kind of an entry from its file-type tests, taken without following
    /// a symbolic link.
    pub fn from_flags(is_dir: bool, is_file: bool) -> (r: EntryKind)
        ensures
            r == (if is_dir {
                EntryKind::Directory
            } else if is_file {
                EntryKind::File
            } else {
                EntryKind::Other
            }),
    {
        if is_dir {
            EntryKind::Directory
        } else if is_file {
            EntryKind::File
        } else {
            EntryKind::Other
        }
    }
}

/// What is mirrored of an entry: its kind, numeric owner and group, and
/// permission bits.
#[derive(Clone, Copy, Debug, PartialEq, Eq, Structural)]
pub struct EntryMeta {
    pub kind: EntryKind,
    pub uid: u32,
    pub gid: u32,
    pub mode: u32,
}

/// Why the source entry's metadata could not be had.
#[derive(Clone, Copy, Debug, PartialEq, Eq, Structural)]
pub enum ReadFailure {
    NotFound,
    Unreadable,
}

/// One filesystem operation on the target tree.
#[derive(Clone, Debug, PartialEq, Eq)]
pub enum Op {
    /// Make the path a directory, creating missing ancestors.
    CreateDirAll(Vec<u8>),
    /// Make the path an empty regular file.
    CreateFile(Vec<u8>),
    /// Set the path's owner and group.
    Chown(Vec<u8>, u32, u32),
    /// Set the path's permission bits.
    Chmod(Vec<u8>, u32),
}

/// An operation with its path as a sequence of bytes.
pub enum OpView {
    CreateDirAll(Seq<u8>),
    CreateFile(Seq<u8>),
    Chown(Seq<u8>, u32, u32),
    Chmod(Seq<u8>, u32),
}

impl View for Op {
    type V = OpView;

    open spec fn view(&self) -> OpView {
        match self {
            Op::CreateDirAll(p) => OpView::CreateDirAll(p@),
            Op::CreateFile(p) => OpView::CreateFile(p@),
            Op::Chown(p, u, g) => OpView::Chown(p@, *u, *g),
            Op::Chmod(p, m) => OpView::Chmod(p@, *m),
        }
    }
}

/// A filesystem tree as a map from each path to the entry there.
pub type FsModel = Map<Seq<u8>, EntryMeta>;

/// The operations that make `target` mirror an entry `m`: create it with
/// the right kind, then set owner and group, and set permission bits last.
pub open spec fn planned(target: Seq<u8>, m: EntryMeta) -> Seq<OpView> {
    seq![
        if m.kind == EntryKind::Directory {
            OpView::CreateDirAll(target)
        } else {
            OpView::CreateFile(target)
        },
        OpView::Chown(target, m.uid, m.gid),
        OpView::Chmod(target, m.mode),
    ]
}

/// Every entry of `before` is still in `after`, unchanged.
pub open spec fn keeps(before: FsModel, after: FsModel) -> bool {
    forall|k: Seq<u8>| #[trigger]
        before.contains_key(k) ==> after.contains_key(k) && after[k] == before[k]
}

/// `after` is a state that a successful `op` can leave behind from `before`.
///
/// Creating where an entry of another kind stands fails. Creating a directory
/// may add missing ancestors. Changing the owner may change the permission
/// bits too (a filesystem may clear setuid and setgid), but nothing else.
pub open spec fn op_effect(before: FsModel, op: OpView, after: FsModel) -> bool {
    match op {
        OpView::CreateDirAll(t) => if before.contains_key(t) {
            before[t].kind == EntryKind::Directory && after == before
        } else {
            after.contains_key(t) && after[t].kind == EntryKind::Directory && keeps(before, after)
        },
        OpView::CreateFile(t) => if before.contains_key(t) {
            before[t].kind == EntryKind::File && after == before
        } else {
            after.contains_key(t) && after[t].kind == EntryKind::File && after == before.insert(
                t,
                after[t],
            )
        },
        OpView::Chown(t, u, g) => {
            &&& before.contains_key(t)
            &&& after.contains_key(t)
            &&& after[t].kind == before[t].kind
            &&& after[t].uid == u
            &&& after[t].gid == g
            &&& after == before.insert(t, after[t])
        },
        OpView::Chmod(t, m) => before.contains_key(t) && after == before.insert(
            t,
            EntryMeta { mode: m, ..before[t] },
        ),
    }
}

/// `states` is a run of `ops` from `before` in which every operation succeeded.
pub open spec fn runs(before: FsModel, ops: Seq<OpView>, states: Seq<FsModel>) -> bool {
    &&& states.len() == ops.len() + 1
    &&& states[0] == before
    &&& forall|i: int| 0 < i <= ops.len() ==> op_effect(states[i - 1], ops[i - 1], #[trigger] states[i])
}

/// `after` holds `m` at `target`, and every other entry of `before` unchanged.
pub open spec fn mirrored(before: FsModel, target: Seq<u8>, m: EntryMeta, after: FsModel) -> bool {
    &&& after.contains_key(target)
    &&& after[target] == m
    &&& forall|k: Seq<u8>| #[trigger]
        before.contains_key(k) && k != target ==> after.contains_key(k) && after[k] == before[k]
}

/// A kind that can be materialized.
pub open spec fn supported(m: EntryMeta) -> bool {
    m.kind == EntryKind::Directory || m.kind == EntryKind::File
}

/// The operations for one step, given what reading the source entry gave.
///
/// A missing or unreadable source, or a source that is neither a directory
/// nor a regular file, stops the walk with the matching error for the source
/// path; otherwise the target is created, owned and given its permission bits,
/// in that order.
pub fn plan_step(pair: &AccumulatedPair, read: Result<EntryMeta, ReadFailure>) -> (r: Result<
    Vec<Op>,
    MaterializeError,
>)
    ensures
        match read {
            Ok(m) => if supported(m) {
                r matches Ok(ops) && ops@.map_values(|o: Op| o@) == planned(pair.target@, m)
            } else {
                r matches Err(e) && e is UnsupportedEntryKind && e.path_of() == pair.source@
            },
            Err(ReadFailure::NotFound) => r matches Err(e) && e is SourceNotFound && e.path_of()
                == pair.source@,
            Err(ReadFailure::Unreadable) => r matches Err(e) && e is MetadataReadError
                && e.path_of() == pair.source@,
        },
{
    let m = match read {
        Ok(m) => m,
        Err(ReadFailure::NotFound) => return Err(MaterializeError::SourceNotFound(copy_path(&pair.source))),
        Err(ReadFailure::Unreadable) => return Err(MaterializeError::MetadataReadError(copy_path(&pair.source))),
    };
    let create = match m.kind {
        EntryKind::Directory => Op::CreateDirAll(copy_path(&pair.target)),
        EntryKind::File => Op::CreateFile(copy_path(&pair.target)),
        EntryKind::Other => return Err(MaterializeError::UnsupportedEntryKind(copy_path(&pair.source))),
    };
    let ops = vec![create, Op::Chown(copy_path(&pair.target), m.uid, m.gid), Op::Chmod(copy_path(&pair.target), m.mode)];
    assert(ops@.map_values(|o: Op| o@) =~= planned(pair.target@, m));
    Ok(ops)
}

/// A copy of a path.
pub(crate) fn copy_path(p: &Vec<u8>) -> (r: Vec<u8>)
    ensures
        r@ == p@,
{
    let mut r: Vec<u8> = Vec::new();
    let mut i: usize = 0;
    while i < p.len()
        invariant
            i <= p@.len(),
            r@ == p@.take(i as int),
        decreases p@.len() - i,
    {
        assert(p@.take(i + 1) == p@.take(i as int).push(p@[i as int]));
        r.push(p[i]);
        i = i + 1;
    }
    assert(p@.take(i as int) == p@);
    r
}

/// `e` is the error that reports `op` failing: its kind follows the
/// operation, and it names the operation's path.
pub open spec fn reports(e: MaterializeError, op: OpView) -> bool {
    match op {
        OpView::CreateDirAll(p) => e is CreateError && e.path_of() == p,
        OpView::CreateFile(p) => e is CreateError && e.path_of() == p,
        OpView::Chown(p, _, _) => e is OwnershipError && e.path_of() == p,
        OpView::Chmod(p, _) => e is PermissionSyncError && e.path_of() == p,
    }
}

impl Op {
    /// The error that reports this operation failing, for its path.
    pub fn failure(&self) -> (r: MaterializeError)
        ensures
            reports(r, self@),
    {
        match self {
            Op::CreateDirAll(p) => MaterializeError::CreateError(copy_path(p)),
            Op::CreateFile(p) => MaterializeError::CreateError(copy_path(p)),
            Op::Chown(p, _, _) => MaterializeError::OwnershipError(copy_path(p)),
            Op::Chmod(p, _) => MaterializeError::PermissionSyncError(copy_path(p)),
        }
    }
}

/// A successful step leaves the target holding exactly the source entry's
/// kind, owner, group and permission bits, whatever changing the owner did to
/// the permission bits, and leaves every other existing entry as it was.
pub proof fn lemma_step_mirrors(target: Seq<u8>, m: EntryMeta, states: Seq<FsModel>)
    requires
        supported(m),
        states.len() > 0,
        runs(states[0], planned(target, m), states),
    ensures
        mirrored(states[0], target, m, states[3]),
{
    let ops = planned(target, m);
    assert(op_effect(states[0], ops[0], states[1]));
    assert(op_effect(states[1], ops[1], states[2]));
    assert(op_effect(states[2], ops[2], states[3]));
    assert(states[3][target] =~= m);
    assert forall|k: Seq<u8>| #[trigger]
        states[0].contains_key(k) && k != target implies states[3].contains_key(k) && states[3][k]
        == states[0][k] by {
        if m.kind == EntryKind::Directory && !states[0].contains_key(target) {
            assert(keeps(states[0], states[1]));
            assert(states[1].contains_key(k));
        }
    }
}

/// Materializing a target that already mirrors the source entry can succeed,
/// changing nothing, and every successful run leaves the tree as it was.
pub proof fn lemma_step_idempotent(target: Seq<u8>, m: EntryMeta, before: FsModel, states: Seq<FsModel>)
    requires
        supported(m),
        before.contains_key(target),
        before[target] == m,
    ensures
        runs(before, planned(target, m), seq![before, before, before, before]),
        runs(before, planned(target, m), states) ==> states[3] == before,
{
    let ops = planned(target, m);
    let quiet = seq![before, before, before, before];
    assert(before.insert(target, before[target]) == before);
    assert(EntryMeta { mode: m.mode, ..before[target] } == before[target]);
    assert forall|i: int| 0 < i <= ops.len() implies op_effect(quiet[i - 1], ops[i - 1], #[trigger] quiet[i]) by {}
    if runs(before, ops, states) {
        assert(op_effect(states[0], ops[0], states[1]));
        assert(op_effect(states[1], ops[1], states[2]));
        assert(op_effect(states[2], ops[2], states[3]));
        assert(states[1] == before);
        assert(states[3][target] =~= m);
        assert(states[3] =~= before);
    }
}

} // verus!
