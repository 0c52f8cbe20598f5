//! Tasks and their scheduling: task identities and metadata, locks with
//! priority inheritance, the priority-aware executor and the keyboard
//! scancode channel.
use vstd::prelude::*;
use crate::task::lock::LockId;

pub mod lock;
pub mod pinh;
pub mod executor;
pub mod keyboard;
pub mod simple_executor;

verus! {

/// Identifies a task; the executor hands them out from a counter.
#[derive(Debug, Clone, Copy, PartialEq, Eq, PartialOrd, Ord, Structural)]
pub struct TaskId(pub u64);

impl TaskId {
    pub fn new(raw: u64) -> (r: TaskId)
        ensures
            r.0 == raw,
    {
        TaskId(raw)
    }
}

/// Scheduling metadata of a task: its base priority, its dynamic priority
/// (raised by aging and inheritance, lowered on release) and the locks it
/// holds.
pub struct TaskMetadata {
    pub base_priority: u8,
    pub dyn_priority: u8,
    pub locks_held: Vec<LockId>,
}

/// A unit of work known to the executor. The work itself (a future) is held
/// by whoever drives the executor, keyed by the task's id.
pub struct Task {
    pub id: TaskId,
    pub meta: TaskMetadata,
}

/// What the scheduler knows of a task.
pub struct TaskView {
    pub id: TaskId,
    pub base_priority: u8,
    pub dyn_priority: u8,
    pub locks_held: Seq<LockId>,
}

impl Task {
    pub open spec fn view(&self) -> TaskView {
        TaskView {
            id: self.id,
            base_priority: self.meta.base_priority,
            dyn_priority: self.meta.dyn_priority,
            locks_held: self.meta.locks_held@,
        }
    }

    /// A task whose base and dynamic priorities are `priority`, holding no
    /// lock. Its id is the current value of the counter `next_id`, which
    /// then rises by one, so tasks made from one counter have distinct,
    /// increasing ids.
    pub fn new(next_id: &mut u64, priority: u8) -> (r: Task)
        requires
            *old(next_id) < u64::MAX,
        ensures
            *final(next_id) == *old(next_id) + 1,
            r@ == (TaskView {
                id: TaskId(*old(next_id)),
                base_priority: priority,
                dyn_priority: priority,
                locks_held: Seq::empty(),
            }),
    {
        let id = TaskId::new(*next_id);
        *next_id = *next_id + 1;
        Task {
            id,
            meta: TaskMetadata { base_priority: priority, dyn_priority: priority, locks_held: Vec::new() },
        }
    }
}

/// The views of a task table.
pub open spec fn views(ts: Seq<Task>) -> Seq<TaskView> {
    ts.map_values(|t: Task| t@)
}

/// `i` is the first position of task `id` in `ts`.
pub open spec fn is_pos(ts: Seq<TaskView>, id: TaskId, i: int) -> bool {
    &&& 0 <= i < ts.len()
    &&& ts[i].id == id
    &&& forall|j: int| 0 <= j < i ==> #[trigger] ts[j].id != id
}

pub open spec fn has_task(ts: Seq<TaskView>, id: TaskId) -> bool {
    exists|i: int| 0 <= i < ts.len() && #[trigger] ts[i].id == id
}

pub open spec fn task_pos(ts: Seq<TaskView>, id: TaskId) -> int {
    choose|i: int| is_pos(ts, id, i)
}

/// Dynamic priority of task `id`; 0 for a task that is not in `ts`.
pub open spec fn dyn_of(ts: Seq<TaskView>, id: TaskId) -> u8 {
    if has_task(ts, id) {
        ts[task_pos(ts, id)].dyn_priority
    } else {
        0
    }
}

pub open spec fn base_of(ts: Seq<TaskView>, id: TaskId) -> u8 {
    if has_task(ts, id) {
        ts[task_pos(ts, id)].base_priority
    } else {
        0
    }
}

pub open spec fn held_by(ts: Seq<TaskView>, id: TaskId) -> Seq<LockId> {
    if has_task(ts, id) {
        ts[task_pos(ts, id)].locks_held
    } else {
        Seq::empty()
    }
}

/// `ts` with the dynamic priority of task `id` set to `d`.
pub open spec fn with_dyn(ts: Seq<TaskView>, id: TaskId, d: u8) -> Seq<TaskView> {
    if has_task(ts, id) {
        let i = task_pos(ts, id);
        ts.update(i, TaskView { dyn_priority: d, ..ts[i] })
    } else {
        ts
    }
}

/// `ts` with lock `l` added to the locks task `id` holds.
pub open spec fn with_held(ts: Seq<TaskView>, id: TaskId, l: LockId) -> Seq<TaskView> {
    if has_task(ts, id) {
        let i = task_pos(ts, id);
        ts.update(i, TaskView { locks_held: ts[i].locks_held.push(l), ..ts[i] })
    } else {
        ts
    }
}

/// `s` without any occurrence of `l`.
pub open spec fn without(s: Seq<LockId>, l: LockId) -> Seq<LockId>
    decreases s.len(),
{
    if s.len() == 0 {
        s
    } else if s.last() == l {
        without(s.drop_last(), l)
    } else {
        without(s.drop_last(), l).push(s.last())
    }
}

/// `ts` with lock `l` removed from the locks task `id` holds.
pub open spec fn without_held(ts: Seq<TaskView>, id: TaskId, l: LockId) -> Seq<TaskView> {
    if has_task(ts, id) {
        let i = task_pos(ts, id);
        ts.update(i, TaskView { locks_held: without(ts[i].locks_held, l), ..ts[i] })
    } else {
        ts
    }
}

pub proof fn lemma_pos_unique(ts: Seq<TaskView>, id: TaskId, i: int)
    requires
        is_pos(ts, id, i),
    ensures
        has_task(ts, id),
        task_pos(ts, id) == i,
{
    assert(ts[i].id == id);
    let k = task_pos(ts, id);
    assert(is_pos(ts, id, k));
    if k < i {
        assert(ts[k].id != id);
    } else if i < k {
        assert(ts[i].id != id);
    }
}

/// Position of task `id` in `tasks`, if it is there.
pub fn find_task(tasks: &Vec<Task>, id: TaskId) -> (r: Option<usize>)
    ensures
        r matches Some(i) ==> is_pos(views(tasks@), id, i as int) && task_pos(views(tasks@), id) == i,
        r is None <==> !has_task(views(tasks@), id),
{
    let ghost vs = views(tasks@);
    let mut i: usize = 0;
    while i < tasks.len()
        invariant
            vs == views(tasks@),
            i <= tasks@.len(),
            forall|j: int| 0 <= j < i ==> #[trigger] vs[j].id != id,
        decreases tasks@.len() - i,
    {
        if tasks[i].id == id {
            proof {
                lemma_pos_unique(vs, id, i as int);
            }
            return Some(i);
        }
        i = i + 1;
    }
    assert forall|j: int| 0 <= j < vs.len() implies #[trigger] vs[j].id != id by {}
    None
}

/// Sets the dynamic priority of the task at position `i`.
pub fn set_dyn_at(tasks: &mut Vec<Task>, i: usize, d: u8)
    requires
        i < old(tasks)@.len(),
    ensures
        final(tasks)@.len() == old(tasks)@.len(),
        views(final(tasks)@) == views(old(tasks)@).update(i as int, TaskView { dyn_priority: d, ..views(old(tasks)@)[i as int] }),
{
    tasks[i].meta.dyn_priority = d;
    assert(views(tasks@) =~= views(old(tasks)@).update(i as int, TaskView { dyn_priority: d, ..views(old(tasks)@)[i as int] }));
}

/// `a` and `b` list the same task ids in the same order.
pub open spec fn same_ids(a: Seq<TaskView>, b: Seq<TaskView>) -> bool {
    &&& a.len() == b.len()
    &&& forall|i: int| 0 <= i < a.len() ==> (#[trigger] a[i]).id == b[i].id
}

/// Changing a task's priority or held locks keeps the table's ids.
pub proof fn lemma_updates_keep_ids(ts: Seq<TaskView>, id: TaskId, l: LockId, d: u8)
    ensures
        same_ids(with_dyn(ts, id, d), ts),
        same_ids(with_held(ts, id, l), ts),
        same_ids(without_held(ts, id, l), ts),
{
    lemma_task_pos(ts, id);
}

/// A task in the table has a first position.
pub proof fn lemma_task_pos(ts: Seq<TaskView>, id: TaskId)
    ensures
        has_task(ts, id) ==> is_pos(ts, id, task_pos(ts, id)),
{
    if has_task(ts, id) {
        let i = choose|i: int| 0 <= i < ts.len() && #[trigger] ts[i].id == id;
        lemma_first_pos(ts, id, i);
    }
}

proof fn lemma_first_pos(ts: Seq<TaskView>, id: TaskId, i: int)
    requires
        0 <= i < ts.len(),
        ts[i].id == id,
    ensures
        exists|k: int| is_pos(ts, id, k),
    decreases i,
{
    if exists|j: int| 0 <= j < i && #[trigger] ts[j].id == id {
        let j = choose|j: int| 0 <= j < i && #[trigger] ts[j].id == id;
        lemma_first_pos(ts, id, j);
    } else {
        assert(is_pos(ts, id, i));
    }
}

} // verus!
