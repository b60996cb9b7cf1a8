//! The cooperative executor: which task is polled next, and what becomes of
//! a task after a poll. The computations themselves are opaque here; the
//! caller resumes them and reports what happened.
use std::collections::BTreeMap;
use std::collections::VecDeque;
use vstd::prelude::*;

verus! {

/// The unique identifier of a task.
#[derive(Clone, Copy, Debug, PartialEq, Eq, Structural)]
pub struct TaskId(pub u64);

/// Why the executor refused.
#[derive(Clone, Copy, Debug, PartialEq, Eq, Structural)]
pub enum ExecutorError {
    /// Every identifier has been given out.
    TooManyTasks,
    /// A task was taken out to be polled and has not come back yet.
    TaskRunning,
    /// No task was taken out to be polled.
    NotRunning,
}

/// What the executor has its caller do next.
pub enum Next<T> {
    /// Resume the task, then hand it back through `park` or `complete`.
    Poll { id: TaskId, task: T },
    /// No task is ready: wait for an interrupt.
    Idle,
}

/// `ready` without `id`, the order of the others kept.
pub open spec fn without(ready: Seq<u64>, id: u64) -> Seq<u64> {
    if ready.contains(id) {
        ready.remove(ready.index_of(id))
    } else {
        ready
    }
}

/// What the executor stands for.
pub struct ExecutorView<T> {
    /// The suspended computations, by identifier.
    pub tasks: Map<u64, T>,
    /// The identifiers of the tasks to poll, in the order in which they
    /// became ready.
    pub ready: Seq<u64>,
    /// The task that was taken out to be polled, if one is.
    pub running: Option<u64>,
    /// The identifier that the next task gets.
    pub next_id: nat,
}

impl<T> ExecutorView<T> {
    /// Whether the task `id` exists: suspended, or taken out to be polled.
    pub open spec fn alive(self, id: u64) -> bool {
        self.tasks.dom().contains(id) || self.running == Some(id)
    }

    /// The invariant of the model: no task is queued twice, only tasks that
    /// exist are queued, and identifiers are given out once.
    pub open spec fn wf(self) -> bool {
        &&& self.ready.no_duplicates()
        &&& forall|i: int| 0 <= i < self.ready.len() ==> self.alive(#[trigger] self.ready[i])
        &&& forall|id: u64| self.alive(id) ==> id < self.next_id
        &&& self.running matches Some(id) ==> !self.tasks.dom().contains(id)
        &&& self.next_id <= u64::MAX
    }

    /// The state after `task` was spawned: it gets the next identifier and
    /// goes to the end of the ready queue.
    pub open spec fn after_spawn(self, task: T) -> ExecutorView<T> {
        if self.next_id < u64::MAX {
            ExecutorView {
                tasks: self.tasks.insert(self.next_id as u64, task),
                ready: self.ready.push(self.next_id as u64),
                running: self.running,
                next_id: self.next_id + 1,
            }
        } else {
            self
        }
    }

    /// The task that is polled next: the one that became ready first.
    pub open spec fn next_task(self) -> Option<u64> {
        if self.running is None && self.ready.len() > 0 {
            Some(self.ready[0])
        } else {
            None
        }
    }

    /// The state after the next task was taken out to be polled.
    pub open spec fn after_take(self) -> ExecutorView<T> {
        match self.next_task() {
            Some(id) => ExecutorView {
                tasks: self.tasks.remove(id),
                ready: self.ready.drop_first(),
                running: Some(id),
                next_id: self.next_id,
            },
            None => self,
        }
    }

    /// The state after the task that was polled came back suspended.
    pub open spec fn after_park(self, task: T) -> ExecutorView<T> {
        match self.running {
            Some(id) => ExecutorView {
                tasks: self.tasks.insert(id, task),
                ready: self.ready,
                running: None,
                next_id: self.next_id,
            },
            None => self,
        }
    }

    /// The state after the task that was polled ran to completion: it is
    /// gone, also from the ready queue.
    pub open spec fn after_complete(self) -> ExecutorView<T> {
        match self.running {
            Some(id) => ExecutorView {
                tasks: self.tasks,
                ready: without(self.ready, id),
                running: None,
                next_id: self.next_id,
            },
            None => self,
        }
    }

    /// Whether a wake of task `id` makes it ready: it exists and is not
    /// queued already.
    pub open spec fn wakes(self, id: u64) -> bool {
        self.alive(id) && !self.ready.contains(id)
    }

    /// The state after the waker of task `id` fired.
    pub open spec fn after_wake(self, id: u64) -> ExecutorView<T> {
        if self.wakes(id) {
            ExecutorView { ready: self.ready.push(id), ..self }
        } else {
            self
        }
    }
}

/// A single-threaded, cooperative scheduler of tasks of type `T`.
pub struct Executor<T> {
    tasks: BTreeMap<u64, T>,
    ready: VecDeque<u64>,
    running: Option<u64>,
    next_id: u64,
}

impl<T> View for Executor<T> {
    type V = ExecutorView<T>;

    closed spec fn view(&self) -> ExecutorView<T> {
        ExecutorView {
            tasks: self.tasks@,
            ready: self.ready@,
            running: self.running,
            next_id: self.next_id as nat,
        }
    }
}

impl<T> Executor<T> {
    /// The invariant of the executor.
    pub open spec fn wf(&self) -> bool {
        self@.wf()
    }

    /// An executor without tasks.
    pub fn new() -> (executor: Executor<T>)
        ensures
            executor.wf(),
            executor@ == (ExecutorView::<T> {
                tasks: Map::empty(),
                ready: Seq::empty(),
                running: None,
                next_id: 0,
            }),
    {
        let executor = Executor {
            tasks: BTreeMap::new(),
            ready: VecDeque::new(),
            running: None,
            next_id: 0,
        };
        assert(executor@.tasks =~= Map::<u64, T>::empty());
        executor
    }

    /// Whether `id` is in the ready queue.
    fn is_queued(&self, id: u64) -> (b: bool)
        ensures
            b == self@.ready.contains(id),
            b ==> 0 <= self@.ready.index_of(id) < self@.ready.len(),
    {
        let mut i: usize = 0;
        while i < self.ready.len()
            invariant
                i <= self.ready.len(),
                forall|k: int| 0 <= k < i ==> self.ready@[k] != id,
            decreases self.ready.len() - i,
        {
            if self.ready[i] == id {
                return true;
            }
            i += 1;
        }
        false
    }

    /// Takes a new task in: it gets an identifier that no task had before
    /// and goes to the end of the ready queue. Refused only when every
    /// identifier has been given out.
    pub fn spawn(&mut self, task: T) -> (r: Result<TaskId, ExecutorError>)
        requires
            old(self).wf(),
        ensures
            final(self).wf(),
            final(self)@ == old(self)@.after_spawn(task),
            r == (if old(self)@.next_id < u64::MAX {
                Ok::<TaskId, ExecutorError>(TaskId(old(self)@.next_id as u64))
            } else {
                Err::<TaskId, ExecutorError>(ExecutorError::TooManyTasks)
            }),
    {
        if self.next_id == u64::MAX {
            return Err(ExecutorError::TooManyTasks);
        }
        let id: u64 = self.next_id;
        self.tasks.insert(id, task);
        self.ready.push_back(id);
        self.next_id = id + 1;
        proof {
            lemma_spawn_keeps_wf(old(self)@, task);
        }
        Ok(TaskId(id))
    }

    /// Takes the task that became ready first out to be polled. `Idle`
    /// means that no task is ready. Refused while a task that was taken out
    /// has not come back.
    pub fn take_next(&mut self) -> (r: Result<Next<T>, ExecutorError>)
        requires
            old(self).wf(),
        ensures
            final(self).wf(),
            final(self)@ == old(self)@.after_take(),
            old(self)@.running is Some ==> (r matches Err(e) && e == ExecutorError::TaskRunning),
            old(self)@.running is None ==> r is Ok,
            r matches Ok(n) ==> match old(self)@.next_task() {
                Some(next) => (n matches Next::Poll { id, task } && id == TaskId(next)
                    && old(self)@.tasks.dom().contains(next) && task == old(self)@.tasks[next]),
                None => n is Idle,
            },
    {
        if self.running.is_some() {
            return Err(ExecutorError::TaskRunning);
        }
        match self.ready.pop_front() {
            None => Ok(Next::Idle),
            Some(id) => {
                assert(old(self)@.alive(old(self)@.ready[0]));
                match self.tasks.remove(&id) {
                    Some(task) => {
                        self.running = Some(id);
                        proof {
                            lemma_take_keeps_wf(old(self)@);
                            assert(self@.tasks =~= old(self)@.tasks.remove(id));
                        }
                        Ok(Next::Poll { id: TaskId(id), task })
                    },
                    None => {
                        assert(false);
                        Ok(Next::Idle)
                    },
                }
            },
        }
    }

    /// Takes back the task that was polled and did not finish: it stays
    /// suspended until its waker fires. Refused when no task was taken out.
    pub fn park(&mut self, task: T) -> (r: Result<TaskId, ExecutorError>)
        requires
            old(self).wf(),
        ensures
            final(self).wf(),
            final(self)@ == old(self)@.after_park(task),
            r == (match old(self)@.running {
                Some(id) => Ok::<TaskId, ExecutorError>(TaskId(id)),
                None => Err::<TaskId, ExecutorError>(ExecutorError::NotRunning),
            }),
    {
        match self.running {
            None => Err(ExecutorError::NotRunning),
            Some(id) => {
                self.tasks.insert(id, task);
                self.running = None;
                proof {
                    lemma_park_keeps_wf(old(self)@, task);
                }
                Ok(TaskId(id))
            },
        }
    }

    /// Records that the task that was polled ran to completion: it is gone
    /// for good. Refused when no task was taken out.
    pub fn complete(&mut self) -> (r: Result<TaskId, ExecutorError>)
        requires
            old(self).wf(),
        ensures
            final(self).wf(),
            final(self)@ == old(self)@.after_complete(),
            r == (match old(self)@.running {
                Some(id) => Ok::<TaskId, ExecutorError>(TaskId(id)),
                None => Err::<TaskId, ExecutorError>(ExecutorError::NotRunning),
            }),
    {
        match self.running {
            None => Err(ExecutorError::NotRunning),
            Some(id) => {
                let mut i: usize = 0;
                while i < self.ready.len() && self.ready[i] != id
                    invariant
                        i <= self.ready.len(),
                        self.ready@ == old(self).ready@,
                        self.tasks@ == old(self).tasks@,
                        self.running == old(self).running,
                        self.next_id == old(self).next_id,
                        forall|k: int| 0 <= k < i ==> self.ready@[k] != id,
                    decreases self.ready.len() - i,
                {
                    i += 1;
                }
                if i < self.ready.len() {
                    let _ = self.ready.remove(i);
                }
                self.running = None;
                proof {
                    lemma_complete_keeps_wf(old(self)@);
                    let ready = old(self)@.ready;
                    if ready.contains(id) {
                        let at = ready.index_of(id);
                        assert(ready[at] == id);
                        assert(i < ready.len());
                        assert(at == i);
                    }
                }
                Ok(TaskId(id))
            },
        }
    }

    /// Records that the waker of task `id` fired: the task goes to the end
    /// of the ready queue, unless it is there already or does not exist any
    /// more. Returns whether it was queued.
    pub fn wake(&mut self, id: TaskId) -> (woken: bool)
        requires
            old(self).wf(),
        ensures
            final(self).wf(),
            woken == old(self)@.wakes(id.0),
            final(self)@ == old(self)@.after_wake(id.0),
    {
        let alive = self.tasks.contains_key(&id.0) || match self.running {
            Some(r) => r == id.0,
            None => false,
        };
        if !alive || self.is_queued(id.0) {
            return false;
        }
        self.ready.push_back(id.0);
        proof {
            lemma_wake_keeps_wf(old(self)@, id.0);
        }
        true
    }

    /// Whether nothing is left to do until a waker fires: no task is ready
    /// and none is out being polled.
    pub fn is_idle(&self) -> (b: bool)
        ensures
            b == (self@.ready.len() == 0 && self@.running is None),
    {
        self.ready.len() == 0 && self.running.is_none()
    }

    /// Number of tasks that are suspended, ready or not. The task that is
    /// out being polled is not among them.
    pub fn suspended_count(&self) -> (n: usize)
        ensures
            n == self@.tasks.len(),
    {
        self.tasks.len()
    }

    /// The task that is out being polled, if one is.
    pub fn running(&self) -> (id: Option<TaskId>)
        ensures
            id == (match self@.running {
                Some(r) => Some(TaskId(r)),
                None => None::<TaskId>,
            }),
    {
        match self.running {
            Some(r) => Some(TaskId(r)),
            None => None,
        }
    }
}

/// Spawning keeps the model well-formed.
pub proof fn lemma_spawn_keeps_wf<T>(v: ExecutorView<T>, task: T)
    requires
        v.wf(),
    ensures
        v.after_spawn(task).wf(),
{
    let after = v.after_spawn(task);
    if v.next_id < u64::MAX {
        let id = v.next_id as u64;
        assert(!v.alive(id));
        assert forall|i: int| 0 <= i < after.ready.len() implies after.alive(
            #[trigger] after.ready[i],
        ) by {
            if i < v.ready.len() {
                assert(v.alive(v.ready[i]));
            }
        }
        assert forall|i: int, j: int|
            0 <= i < after.ready.len() && 0 <= j < after.ready.len() && i != j implies after.ready[i]
            != after.ready[j] by {
            if i < v.ready.len() {
                assert(v.alive(v.ready[i]));
            }
            if j < v.ready.len() {
                assert(v.alive(v.ready[j]));
            }
        }
        assert forall|other: u64| after.alive(other) implies other < after.next_id by {
            if other != id {
                assert(v.alive(other));
            }
        }
        if let Some(r) = v.running {
            assert(v.alive(r));
        }
    }
}

/// Taking the next task out keeps the model well-formed.
pub proof fn lemma_take_keeps_wf<T>(v: ExecutorView<T>)
    requires
        v.wf(),
    ensures
        v.after_take().wf(),
{
    let after = v.after_take();
    if v.next_task() is Some {
        let id = v.ready[0];
        assert(v.alive(id));
        assert forall|i: int| 0 <= i < after.ready.len() implies after.alive(
            #[trigger] after.ready[i],
        ) by {
            assert(v.alive(v.ready[i + 1]));
        }
        assert forall|i: int, j: int| 0 <= i < j < after.ready.len() implies after.ready[i]
            != after.ready[j] by {
            assert(v.ready[i + 1] != v.ready[j + 1]);
        }
        assert forall|other: u64| after.alive(other) implies other < after.next_id by {
            assert(v.alive(other));
        }
    }
}

/// Parking keeps the model well-formed.
pub proof fn lemma_park_keeps_wf<T>(v: ExecutorView<T>, task: T)
    requires
        v.wf(),
    ensures
        v.after_park(task).wf(),
{
    let after = v.after_park(task);
    if v.running is Some {
        assert forall|i: int| 0 <= i < after.ready.len() implies after.alive(
            #[trigger] after.ready[i],
        ) by {
            assert(v.alive(v.ready[i]));
        }
        assert forall|other: u64| after.alive(other) implies other < after.next_id by {
            assert(v.alive(other));
        }
    }
}

/// Completing keeps the model well-formed.
pub proof fn lemma_complete_keeps_wf<T>(v: ExecutorView<T>)
    requires
        v.wf(),
    ensures
        v.after_complete().wf(),
        v.running matches Some(id) ==> !v.after_complete().ready.contains(id),
{
    let after = v.after_complete();
    if let Some(id) = v.running {
        if v.ready.contains(id) {
            let at = v.ready.index_of(id);
            assert(v.ready[at] == id);
            assert forall|i: int| 0 <= i < after.ready.len() implies after.alive(
                #[trigger] after.ready[i],
            ) && after.ready[i] != id by {
                if i < at {
                    assert(v.alive(v.ready[i]));
                } else {
                    assert(v.alive(v.ready[i + 1]));
                    assert(v.ready[i + 1] != v.ready[at]);
                }
            }
            assert forall|i: int, j: int| 0 <= i < j < after.ready.len() implies after.ready[i]
                != after.ready[j] by {
                let a = if i < at {
                    i
                } else {
                    i + 1
                };
                let b = if j < at {
                    j
                } else {
                    j + 1
                };
                assert(v.ready[a] != v.ready[b]);
            }
        } else {
            assert forall|i: int| 0 <= i < after.ready.len() implies after.alive(
                #[trigger] after.ready[i],
            ) by {
                assert(v.alive(v.ready[i]));
                assert(v.ready.contains(v.ready[i]));
            }
        }
        assert forall|other: u64| after.alive(other) implies other < after.next_id by {
            assert(v.alive(other));
        }
    }
}

/// Waking keeps the model well-formed.
pub proof fn lemma_wake_keeps_wf<T>(v: ExecutorView<T>, id: u64)
    requires
        v.wf(),
    ensures
        v.after_wake(id).wf(),
{
    let after = v.after_wake(id);
    if v.wakes(id) {
        assert forall|i: int| 0 <= i < after.ready.len() implies after.alive(
            #[trigger] after.ready[i],
        ) by {
            if i < v.ready.len() {
                assert(v.alive(v.ready[i]));
            }
        }
        assert forall|i: int, j: int|
            0 <= i < after.ready.len() && 0 <= j < after.ready.len() && i != j implies after.ready[i]
            != after.ready[j] by {
            if i < v.ready.len() {
                assert(v.ready.contains(v.ready[i]));
            }
            if j < v.ready.len() {
                assert(v.ready.contains(v.ready[j]));
            }
        }
        assert forall|other: u64| after.alive(other) implies other < after.next_id by {
            assert(v.alive(other));
        }
    }
}

/// Two tasks spawned one after the other into an executor at rest, neither
/// of which suspends: the first is the one taken out first, the second
/// cannot be taken out while the first is out, and it is taken out once the
/// first has run to completion.
pub proof fn law_executor_runs_tasks_in_spawn_order<T>(v: ExecutorView<T>, first: T, second: T)
    requires
        v.wf(),
        v.running is None,
        v.ready.len() == 0,
        v.next_id + 1 < u64::MAX,
    ensures
        v.after_spawn(first).after_spawn(second).next_task() == Some(v.next_id as u64),
        v.after_spawn(first).after_spawn(second).after_take().next_task() is None,
        v.after_spawn(first).after_spawn(second).after_take().after_complete().next_task() == Some(
            (v.next_id + 1) as u64,
        ),
        v.after_spawn(first).after_spawn(second).after_take().after_complete().after_take().tasks
            == v.tasks,
{
    let a = v.next_id as u64;
    let b = (v.next_id + 1) as u64;
    let spawned = v.after_spawn(first).after_spawn(second);
    assert(spawned.ready =~= seq![a, b]);
    let taken = spawned.after_take();
    assert(taken.ready =~= seq![b]);
    assert(!taken.ready.contains(a)) by {
        if taken.ready.contains(a) {
            let k = choose|k: int| 0 <= k < taken.ready.len() && taken.ready[k] == a;
        }
    }
    let done = taken.after_complete();
    assert(done.ready =~= seq![b]);
    assert(!v.alive(a) && !v.alive(b));
    assert(done.after_take().tasks =~= v.tasks);
}

/// Tasks are polled in the order in which they became ready: a task that is
/// spawned or woken goes behind every task that is ready already, and the
/// task taken out is the one at the front.
pub proof fn law_ready_order_is_fifo<T>(v: ExecutorView<T>, task: T, id: u64)
    requires
        v.wf(),
    ensures
        v.next_id < u64::MAX ==> v.after_spawn(task).ready == v.ready.push(v.next_id as u64),
        v.wakes(id) ==> v.after_wake(id).ready == v.ready.push(id),
        v.next_task() matches Some(next) ==> (next == v.ready[0] && v.after_take().ready
            == v.ready.drop_first()),
{
}

} // verus!
