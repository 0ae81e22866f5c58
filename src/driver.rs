use vstd::prelude::*;

use crate::error::MaterializeError;
use crate::materialize::{copy_path, plan_step, planned, reports, supported, EntryMeta, Op, ReadFailure};
use crate::paths::{accumulate_pairs, accumulated, components, is_rooted, AccumulatedPair};

verus! {

/// What the walk asks its driver to do next.
#[derive(Debug, PartialEq, Eq)]
pub enum Action {
    /// Read the metadata of this source path, and report it with `on_inspected`.
    Inspect(Vec<u8>),
    /// Perform this operation, and report whether it succeeded with `on_applied`.
    Apply(Op),
    /// The walk is over, with this outcome.
    Finish(Result<(), MaterializeError>),
}

/// A walk down the requested path, one step per prefix, shallowest first: it
/// inspects each source entry, then applies the operations that mirror it on
/// the target, and stops at the first failure.
#[derive(Debug)]
pub struct Walk {
    /// The source and target paths of each step.
    pub pairs: Vec<AccumulatedPair>,
    /// The step under way.
    pub step: usize,
    /// The operations of the step under way; empty while it is being inspected.
    pub ops: Vec<Op>,
    /// How many of `ops` have been handed out.
    pub next_op: usize,
    /// Whether the walk is over.
    pub finished: bool,
}

impl Walk {
    /// The walk awaits the metadata of the source entry of step `step`.
    pub open spec fn awaits_inspection(&self) -> bool {
        !self.finished && self.step < self.pairs@.len() && self.ops@.len() == 0
    }

    /// The walk awaits the outcome of operation `next_op - 1` of step `step`.
    pub open spec fn awaits_application(&self) -> bool {
        &&& !self.finished
        &&& self.step < self.pairs@.len()
        &&& 1 <= self.next_op <= self.ops@.len()
    }

    /// Starts a walk of `path`, whose components are taken under both roots;
    /// the action returned is the first one to perform.
    pub fn new(source_root: &Vec<u8>, target_root: &Vec<u8>, path: &Vec<u8>) -> (r: Result<
        (Walk, Action),
        MaterializeError,
    >)
        ensures
            match r {
                Ok((w, a)) => {
                    &&& is_rooted(path@)
                    &&& w.pairs@.len() == components(path@).len()
                    &&& forall|k: int|
                        0 <= k < w.pairs@.len() ==> {
                            &&& (#[trigger] w.pairs@[k]).source@ == accumulated(
                                source_root@,
                                components(path@),
                                (k + 1) as nat,
                            )
                            &&& w.pairs@[k].target@ == accumulated(
                                target_root@,
                                components(path@),
                                (k + 1) as nat,
                            )
                        }
                    &&& w.step == 0
                    &&& if w.pairs@.len() == 0 {
                        &&& w.finished
                        &&& a == Action::Finish(Ok(()))
                    } else {
                        &&& w.awaits_inspection()
                        &&& a matches Action::Inspect(p) && p@ == w.pairs@[0].source@
                    }
                },
                Err(e) => !is_rooted(path@) && e is NotRooted && e.path_of() == path@,
            },
    {
        let pairs = match accumulate_pairs(source_root, target_root, path) {
            Ok(p) => p,
            Err(e) => return Err(e),
        };
        if pairs.len() == 0 {
            let w = Walk { pairs, step: 0, ops: Vec::new(), next_op: 0, finished: true };
            return Ok((w, Action::Finish(Ok(()))));
        }
        let first = copy_path(&pairs[0].source);
        let w = Walk { pairs, step: 0, ops: Vec::new(), next_op: 0, finished: false };
        Ok((w, Action::Inspect(first)))
    }

    /// Takes what reading the source entry of the current step gave: stops the
    /// walk with the error `plan_step` gives, or hands out the step's first
    /// operation.
    pub fn on_inspected(&mut self, read: Result<EntryMeta, ReadFailure>) -> (a: Action)
        requires
            old(self).awaits_inspection(),
        ensures
            final(self).pairs@ == old(self).pairs@,
            final(self).step == old(self).step,
            match read {
                Ok(m) => if supported(m) {
                    &&& final(self).awaits_application()
                    &&& final(self).next_op == 1
                    &&& final(self).ops@.map_values(|o: Op| o@) == planned(
                        old(self).pairs@[old(self).step as int].target@,
                        m,
                    )
                    &&& a matches Action::Apply(op) && op@ == final(self).ops@[0]@
                } else {
                    &&& final(self).finished
                    &&& a matches Action::Finish(Err(e)) && e is UnsupportedEntryKind && e.path_of()
                        == old(self).pairs@[old(self).step as int].source@
                },
                Err(ReadFailure::NotFound) => {
                    &&& final(self).finished
                    &&& a matches Action::Finish(Err(e)) && e is SourceNotFound && e.path_of()
                        == old(self).pairs@[old(self).step as int].source@
                },
                Err(ReadFailure::Unreadable) => {
                    &&& final(self).finished
                    &&& a matches Action::Finish(Err(e)) && e is MetadataReadError && e.path_of()
                        == old(self).pairs@[old(self).step as int].source@
                },
            },
    {
        match plan_step(&self.pairs[self.step], read) {
            Err(e) => {
                self.finished = true;
                Action::Finish(Err(e))
            },
            Ok(ops) => {
                proof {
                    assert(ops@.map_values(|o: Op| o@).len() == ops@.len());
                    assert(ops@.map_values(|o: Op| o@)[0] == ops@[0]@);
                }
                let first = copy_op(&ops[0]);
                self.ops = ops;
                self.next_op = 1;
                Action::Apply(first)
            },
        }
    }

    /// Takes whether the last operation handed out succeeded: on failure stops
    /// the walk with that operation's error; otherwise hands out the step's
    /// next operation, or starts the next step, or finishes with success after
    /// the last.
    pub fn on_applied(&mut self, ok: bool) -> (a: Action)
        requires
            old(self).awaits_application(),
        ensures
            final(self).pairs@ == old(self).pairs@,
            !ok ==> {
                &&& final(self).finished
                &&& a matches Action::Finish(Err(e)) && reports(e, old(self).ops@[old(self).next_op - 1]@)
            },
            ok && old(self).next_op < old(self).ops@.len() ==> {
                &&& final(self).awaits_application()
                &&& final(self).step == old(self).step
                &&& final(self).ops@ == old(self).ops@
                &&& final(self).next_op == old(self).next_op + 1
                &&& a matches Action::Apply(op) && op@ == old(self).ops@[old(self).next_op as int]@
            },
            ok && old(self).next_op == old(self).ops@.len() && old(self).step + 1 < old(self).pairs@.len() ==> {
                &&& final(self).awaits_inspection()
                &&& final(self).step == old(self).step + 1
                &&& a matches Action::Inspect(p) && p@ == old(self).pairs@[old(self).step + 1].source@
            },
            ok && old(self).next_op == old(self).ops@.len() && old(self).step + 1 == old(self).pairs@.len() ==> {
                &&& final(self).finished
                &&& a == Action::Finish(Ok(()))
            },
    {
        if !ok {
            let e = self.ops[self.next_op - 1].failure();
            self.finished = true;
            return Action::Finish(Err(e));
        }
        if self.next_op < self.ops.len() {
            let op = copy_op(&self.ops[self.next_op]);
            self.next_op = self.next_op + 1;
            return Action::Apply(op);
        }
        let n = self.pairs.len();
        if self.step + 1 < n {
            self.step = self.step + 1;
            self.ops = Vec::new();
            self.next_op = 0;
            return Action::Inspect(copy_path(&self.pairs[self.step].source));
        }
        self.finished = true;
        Action::Finish(Ok(()))
    }
}

/// A copy of an operation.
fn copy_op(op: &Op) -> (r: Op)
    ensures
        r@ == op@,
{
    match op {
        Op::CreateDirAll(p) => Op::CreateDirAll(copy_path(p)),
        Op::CreateFile(p) => Op::CreateFile(copy_path(p)),
        Op::Chown(p, u, g) => Op::Chown(copy_path(p), *u, *g),
        Op::Chmod(p, m) => Op::Chmod(copy_path(p), *m),
    }
}

} // verus!
