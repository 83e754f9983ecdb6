//! The cooperative task registry that bridges asynchronous backend reads
//! into a frame-driven loop.
//!
//! A scheduled read becomes a [`PendingLoad`]; the surrounding frame loop
//! performs the read and hands back a [`Completion`], which removes the task.
//! Task numbers are never reused, so a stale completion (for a task whose
//! entry was invalidated meanwhile) can always be told apart and discarded.

use vstd::prelude::*;

use crate::errors::IoError;
use crate::keys::KeyModel;
use crate::keys::ResourceKey;

verus! {

/// A scheduled, not yet completed, backend read.
#[derive(Debug)]
pub struct PendingLoad {
    /// The entry the read was issued for.
    pub key: ResourceKey,
    /// The task number handed out when the read was scheduled.
    pub task: u64,
}

/// The mathematical model of a pending load.
pub struct PendingModel {
    pub key: KeyModel,
    pub task: int,
}

impl View for PendingLoad {
    type V = PendingModel;

    open spec fn view(&self) -> PendingModel {
        PendingModel { key: self.key@, task: self.task as int }
    }
}

/// The reported outcome of one scheduled read.
#[derive(Debug)]
pub struct Completion {
    /// The task number the outcome belongs to.
    pub task: u64,
    /// The bytes read, or the backend fault.
    pub result: Result<Vec<u8>, IoError>,
}

/// The bytes or fault a completion carries, as a mathematical value.
pub open spec fn completion_result(c: Completion) -> Result<Seq<u8>, IoError> {
    match c.result {
        Ok(b) => Ok(b@),
        Err(e) => Err(e),
    }
}

/// The mathematical model of the registry.
pub struct LoaderModel {
    pub pending: Seq<PendingModel>,
    pub next_task: int,
}

/// Some pending load carries task number `t`.
pub open spec fn has_task(m: LoaderModel, t: int) -> bool {
    exists|i: int| 0 <= i < m.pending.len() && m.pending[i].task == t
}

/// The position of the pending load with task number `t` (meaningful when
/// `has_task`).
pub open spec fn task_index(m: LoaderModel, t: int) -> int {
    choose|i: int| 0 <= i < m.pending.len() && m.pending[i].task == t
}

/// Task numbers are pairwise distinct and below the counter.
pub open spec fn loader_wf(m: LoaderModel) -> bool {
    &&& forall|i: int, j: int|
        0 <= i < j < m.pending.len() ==> m.pending[i].task != m.pending[j].task
    &&& forall|i: int| 0 <= i < m.pending.len() ==> #[trigger] m.pending[i].task < m.next_task
}

/// A position in the pending list is exactly the one its task number indexes.
pub proof fn lemma_task_index_of(m: LoaderModel, j: int)
    requires
        loader_wf(m),
        0 <= j < m.pending.len(),
    ensures
        has_task(m, m.pending[j].task),
        task_index(m, m.pending[j].task) == j,
{
    let t = m.pending[j].task;
    assert(has_task(m, t));
    let i = task_index(m, t);
    if i < j {
        assert(m.pending[i].task != m.pending[j].task);
    } else if i > j {
        assert(m.pending[j].task != m.pending[i].task);
    }
}

/// Removing one pending load leaves every other task in place.
pub proof fn lemma_remove_keeps_other_tasks(m: LoaderModel, m2: LoaderModel, j: int)
    requires
        loader_wf(m),
        0 <= j < m.pending.len(),
        m2.pending == m.pending.remove(j),
        m2.next_task == m.next_task,
    ensures
        loader_wf(m2),
        forall|t: int| t != m.pending[j].task ==> has_task(m2, t) == has_task(m, t),
        forall|t: int|
            t != m.pending[j].task && #[trigger] has_task(m, t) ==> m2.pending[task_index(m2, t)]
                == m.pending[task_index(m, t)],
{
    m.pending.remove_ensures(j);
    let tj = m.pending[j].task;
    assert forall|t: int| t != tj implies has_task(m2, t) == has_task(m, t) by {
        if has_task(m2, t) {
            let a = task_index(m2, t);
            if a < j {
                assert(m.pending[a].task == t);
            } else {
                assert(m.pending[a + 1].task == t);
            }
            assert(has_task(m, t));
        }
        if has_task(m, t) {
            let a = task_index(m, t);
            assert(m.pending[a].task == t);
            if a < j {
                assert(m2.pending[a].task == t);
            } else {
                assert(a > j);
                assert(m2.pending[a - 1].task == t);
            }
            assert(has_task(m2, t));
        }
    }
    assert forall|t: int| t != tj && #[trigger] has_task(m, t) implies m2.pending[task_index(
        m2,
        t,
    )] == m.pending[task_index(m, t)] by {
        let a = task_index(m, t);
        assert(m.pending[a].task == t);
        if a < j {
            assert(m2.pending[a].task == t);
            lemma_task_index_of(m2, a);
        } else {
            assert(a > j);
            assert(m2.pending[a - 1].task == t);
            lemma_task_index_of(m2, a - 1);
        }
    }
}

/// The registry of in-flight reads.
#[derive(Debug)]
pub struct Loader {
    /// The in-flight reads, in the order they were scheduled.
    pub pending: Vec<PendingLoad>,
    /// The next task number to hand out; task numbers are never reused.
    pub next_task: u64,
}

impl View for Loader {
    type V = LoaderModel;

    open spec fn view(&self) -> LoaderModel {
        LoaderModel {
            pending: self.pending@.map_values(|p: PendingLoad| p@),
            next_task: self.next_task as int,
        }
    }
}

impl Loader {
    /// The registry's invariant, stated on its model.
    pub open spec fn wf(self) -> bool {
        loader_wf(self@)
    }

    /// An empty registry.
    pub fn new() -> (r: Loader)
        ensures
            r.wf(),
            r@.pending.len() == 0,
            r@.next_task == 0,
    {
        Loader { pending: Vec::new(), next_task: 0 }
    }

    /// Registers a read for `key` and hands out its task number.  The caller
    /// never blocks on the read itself.
    pub fn schedule(&mut self, key: ResourceKey) -> (t: u64)
        requires
            old(self).wf(),
            old(self)@.next_task < u64::MAX,
        ensures
            final(self).wf(),
            t == old(self)@.next_task,
            final(self)@.next_task == old(self)@.next_task + 1,
            final(self)@.pending == old(self)@.pending.push(
                PendingModel { key: key@, task: t as int },
            ),
    {
        let t = self.next_task;
        self.pending.push(PendingLoad { key, task: t });
        self.next_task = t + 1;
        proof {
            assert(self@.pending =~= old(self)@.pending.push(
                PendingModel { key: key@, task: t as int },
            ));
        }
        t
    }

    /// Removes and returns the pending load with task number `task`; a task
    /// number that is not in flight (already completed, or never handed out)
    /// leaves the registry untouched.
    pub fn take(&mut self, task: u64) -> (r: Option<PendingLoad>)
        requires
            old(self).wf(),
        ensures
            final(self).wf(),
            final(self)@.next_task == old(self)@.next_task,
            has_task(old(self)@, task as int) ==> {
                let j = task_index(old(self)@, task as int);
                r matches Some(p) && p@ == old(self)@.pending[j] && final(self)@.pending == old(
                    self,
                )@.pending.remove(j)
            },
            !has_task(old(self)@, task as int) ==> r is None && *final(self) == *old(self),
    {
        let n = self.pending.len();
        let mut i: usize = 0;
        while i < n
            invariant
                0 <= i <= n,
                n == self@.pending.len(),
                *self == *old(self),
                old(self).wf(),
                forall|j: int| 0 <= j < i ==> self@.pending[j].task != task as int,
            decreases n - i,
        {
            if self.pending[i].task == task {
                let p = self.pending.remove(i);
                proof {
                    let oldp = old(self)@.pending;
                    assert(oldp[i as int].task == task as int);
                    assert(has_task(old(self)@, task as int));
                    let j = task_index(old(self)@, task as int);
                    assert(0 <= j < oldp.len() && oldp[j].task == task as int);
                    assert(old(self).wf());
                    if j < i as int {
                        assert(oldp[j].task != oldp[i as int].task);
                    } else if j > i as int {
                        assert(oldp[i as int].task != oldp[j].task);
                    }
                    assert(j == i as int);
                    assert(self@.pending =~= oldp.remove(i as int));
                    oldp.remove_ensures(i as int);
                }
                return Some(p);
            }
            i += 1;
        }
        None
    }
}

} // verus!
