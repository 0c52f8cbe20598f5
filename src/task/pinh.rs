//! Locks with one-level priority inheritance.
use vstd::prelude::*;
use crate::task::lock::LockId;
use crate::task::{
    Task, TaskId, TaskView, views, is_pos, has_task, task_pos, dyn_of, with_dyn, with_held,
    without, without_held, find_task, set_dyn_at,
};

verus! {

/// What the scheduler knows of a lock.
pub struct LockView {
    pub id: LockId,
    pub owner: Option<TaskId>,
    pub waiters: Seq<TaskId>,
}

/// A lock owned by at most one task, with the tasks waiting for it in the
/// order they asked.
pub struct PriLock {
    id: LockId,
    owner: Option<TaskId>,
    waiters: Vec<TaskId>,
}

/// The larger of two priorities.
pub open spec fn max_prio(a: u8, b: u8) -> u8 {
    if a >= b {
        a
    } else {
        b
    }
}

/// The highest dynamic priority among the tasks `ws`; 0 for none.
pub open spec fn max_waiter(ts: Seq<TaskView>, ws: Seq<TaskId>) -> u8
    decreases ws.len(),
{
    if ws.len() == 0 {
        0
    } else {
        max_prio(max_waiter(ts, ws.drop_last()), dyn_of(ts, ws.last()))
    }
}

/// `ts` with the dynamic priority of `owner` raised to at least that of `waiter`.
pub open spec fn boosted(ts: Seq<TaskView>, owner: TaskId, waiter: TaskId) -> Seq<TaskView> {
    with_dyn(ts, owner, max_prio(dyn_of(ts, owner), dyn_of(ts, waiter)))
}

/// `k` is the position in `ws` of the task with the highest dynamic
/// priority, the earliest among equals.
pub open spec fn is_first_max(ts: Seq<TaskView>, ws: Seq<TaskId>, k: int) -> bool {
    &&& 0 <= k < ws.len()
    &&& forall|j: int| 0 <= j < ws.len() ==> dyn_of(ts, #[trigger] ws[j]) <= dyn_of(ts, ws[k])
    &&& forall|j: int| 0 <= j < k ==> dyn_of(ts, #[trigger] ws[j]) < dyn_of(ts, ws[k])
}

pub open spec fn first_max_pos(ts: Seq<TaskView>, ws: Seq<TaskId>) -> int {
    choose|k: int| is_first_max(ts, ws, k)
}

pub proof fn lemma_first_max_unique(ts: Seq<TaskView>, ws: Seq<TaskId>, k: int)
    requires
        is_first_max(ts, ws, k),
    ensures
        first_max_pos(ts, ws) == k,
{
    let m = first_max_pos(ts, ws);
    assert(is_first_max(ts, ws, m));
    if m < k {
        assert(dyn_of(ts, ws[m]) < dyn_of(ts, ws[k]));
        assert(dyn_of(ts, ws[k]) <= dyn_of(ts, ws[m]));
    } else if k < m {
        assert(dyn_of(ts, ws[k]) < dyn_of(ts, ws[m]));
        assert(dyn_of(ts, ws[m]) <= dyn_of(ts, ws[k]));
    }
}

/// The lock `l` and task table `ts` after the owner of `l` releases it,
/// its dynamic priority becoming `restored`: the lock goes to the waiter
/// chosen by `is_first_max`, or becomes free when none waits.
pub open spec fn released(l: LockView, ts: Seq<TaskView>, restored: u8) -> (LockView, Seq<TaskView>) {
    let o = l.owner.unwrap();
    let ts1 = without_held(with_dyn(ts, o, restored), o, l.id);
    if l.waiters.len() == 0 {
        (LockView { owner: None, ..l }, ts1)
    } else {
        let k = first_max_pos(ts1, l.waiters);
        let w = l.waiters[k];
        (LockView { owner: Some(w), waiters: l.waiters.remove(k), ..l }, with_held(ts1, w, l.id))
    }
}

/// Adds lock `l` to the locks held by the task at position `i`.
fn push_held_at(tasks: &mut Vec<Task>, i: usize, l: LockId)
    requires
        i < old(tasks)@.len(),
    ensures
        views(final(tasks)@) == views(old(tasks)@).update(i as int, TaskView { locks_held: views(old(tasks)@)[i as int].locks_held.push(l), ..views(old(tasks)@)[i as int] }),
{
    tasks[i].meta.locks_held.push(l);
    assert(views(tasks@) =~= views(old(tasks)@).update(i as int, TaskView { locks_held: views(old(tasks)@)[i as int].locks_held.push(l), ..views(old(tasks)@)[i as int] }));
}

/// Removes lock `l` from the locks held by the task at position `i`.
fn drop_held_at(tasks: &mut Vec<Task>, i: usize, l: LockId)
    requires
        i < old(tasks)@.len(),
    ensures
        views(final(tasks)@) == views(old(tasks)@).update(i as int, TaskView { locks_held: without(views(old(tasks)@)[i as int].locks_held, l), ..views(old(tasks)@)[i as int] }),
{
    let ghost s = tasks@[i as int].meta.locks_held@;
    let mut kept: Vec<LockId> = Vec::new();
    let mut j: usize = 0;
    let n = tasks[i].meta.locks_held.len();
    while j < n
        invariant
            i < tasks@.len(),
            tasks@ == old(tasks)@,
            s == tasks@[i as int].meta.locks_held@,
            n == s.len(),
            j <= n,
            kept@ == without(s.take(j as int), l),
        decreases n - j,
    {
        let x = tasks[i].meta.locks_held[j];
        proof {
            assert(s.take(j + 1).drop_last() =~= s.take(j as int));
        }
        if x != l {
            kept.push(x);
        }
        j = j + 1;
    }
    assert(s.take(n as int) =~= s);
    tasks[i].meta.locks_held = kept;
    assert(views(tasks@) =~= views(old(tasks)@).update(i as int, TaskView { locks_held: without(views(old(tasks)@)[i as int].locks_held, l), ..views(old(tasks)@)[i as int] }));
}

/// Sets the dynamic priority of task `id`, if it is in `tasks`.
fn set_dyn(tasks: &mut Vec<Task>, id: TaskId, d: u8)
    ensures
        views(final(tasks)@) == with_dyn(views(old(tasks)@), id, d),
{
    if let Some(i) = find_task(tasks, id) {
        set_dyn_at(tasks, i, d);
    }
}

/// Dynamic priority of task `id`; 0 when it is not in `tasks`.
pub fn dyn_priority_of(tasks: &Vec<Task>, id: TaskId) -> (r: u8)
    ensures
        r == dyn_of(views(tasks@), id),
{
    match find_task(tasks, id) {
        Some(i) => tasks[i].meta.dyn_priority,
        None => 0,
    }
}

impl PriLock {
    pub closed spec fn view(&self) -> LockView {
        LockView { id: self.id, owner: self.owner, waiters: self.waiters@ }
    }

    /// A free lock with no waiters.
    pub fn new(id: LockId) -> (r: PriLock)
        ensures
            r@ == (LockView { id, owner: None, waiters: Seq::empty() }),
    {
        PriLock { id, owner: None, waiters: Vec::new() }
    }

    pub fn id(&self) -> (r: LockId)
        ensures
            r == self@.id,
    {
        self.id
    }

    pub fn owner(&self) -> (r: Option<TaskId>)
        ensures
            r == self@.owner,
    {
        self.owner
    }

    /// Whether `task` waits for this lock.
    pub fn has_waiter(&self, task: TaskId) -> (r: bool)
        ensures
            r == self@.waiters.contains(task),
    {
        let mut i: usize = 0;
        while i < self.waiters.len()
            invariant
                i <= self.waiters@.len(),
                forall|j: int| 0 <= j < i ==> self.waiters@[j] != task,
            decreases self.waiters@.len() - i,
        {
            if self.waiters[i] == task {
                return true;
            }
            i = i + 1;
        }
        false
    }

    /// The highest dynamic priority among the waiters; 0 when none waits.
    pub fn max_waiter_priority(&self, tasks: &Vec<Task>) -> (r: u8)
        ensures
            r == max_waiter(views(tasks@), self@.waiters),
    {
        let mut best: u8 = 0;
        let mut i: usize = 0;
        while i < self.waiters.len()
            invariant
                i <= self.waiters@.len(),
                best == max_waiter(views(tasks@), self.waiters@.take(i as int)),
            decreases self.waiters@.len() - i,
        {
            proof {
                assert(self.waiters@.take(i + 1).drop_last() =~= self.waiters@.take(i as int));
            }
            let d = dyn_priority_of(tasks, self.waiters[i]);
            if d > best {
                best = d;
            }
            i = i + 1;
        }
        assert(self.waiters@.take(i as int) =~= self.waiters@);
        best
    }

    pub fn set_owner(&mut self, new_owner: TaskId)
        ensures
            final(self)@ == (LockView { owner: Some(new_owner), ..old(self)@ }),
    {
        self.owner = Some(new_owner);
    }

    pub fn add_waiter(&mut self, waiter: TaskId)
        ensures
            final(self)@ == (LockView { waiters: old(self)@.waiters.push(waiter), ..old(self)@ }),
    {
        self.waiters.push(waiter);
    }

    /// Raises the owner's dynamic priority to that of `waiter_id` when the
    /// waiter's is higher.
    pub fn propagate_priority(&self, tasks: &mut Vec<Task>, waiter_id: TaskId)
        ensures
            self@.owner matches Some(o) ==> views(final(tasks)@) == boosted(views(old(tasks)@), o, waiter_id),
            self@.owner is None ==> final(tasks)@ == old(tasks)@,
    {
        if let Some(owner_id) = self.owner {
            let waiter_priority = dyn_priority_of(tasks, waiter_id);
            let owner_priority = dyn_priority_of(tasks, owner_id);
            if waiter_priority > owner_priority {
                set_dyn(tasks, owner_id, waiter_priority);
            } else {
                set_dyn(tasks, owner_id, owner_priority);
            }
        }
    }

    /// `task_id` asks for the lock. A free lock becomes its own and is added
    /// to the locks it holds; a lock it owns stays as it is; a lock owned by
    /// another task gets it as a waiter and lends the owner its priority.
    /// Returns whether `task_id` owns the lock afterwards.
    pub fn lock_acquire(&mut self, tasks: &mut Vec<Task>, task_id: TaskId) -> (r: bool)
        ensures
            old(self)@.owner is None ==> r && final(self)@ == (LockView { owner: Some(task_id), ..old(self)@ })
                && views(final(tasks)@) == with_held(views(old(tasks)@), task_id, old(self)@.id),
            old(self)@.owner == Some(task_id) ==> r && final(self)@ == old(self)@ && final(tasks)@ == old(tasks)@,
            old(self)@.owner is Some && old(self)@.owner.unwrap() != task_id ==> !r && final(self)@ == (LockView {
                waiters: old(self)@.waiters.push(task_id),
                ..old(self)@
            }) && views(final(tasks)@) == boosted(views(old(tasks)@), old(self)@.owner.unwrap(), task_id),
    {
        match self.owner {
            None => {
                self.owner = Some(task_id);
                if let Some(i) = find_task(tasks, task_id) {
                    push_held_at(tasks, i, self.id);
                }
                true
            },
            Some(o) => {
                if o == task_id {
                    true
                } else {
                    self.add_waiter(task_id);
                    self.propagate_priority(tasks, task_id);
                    false
                }
            },
        }
    }

    /// The owner gives the lock up: its dynamic priority becomes `restored`
    /// and the lock leaves the locks it holds. The waiter with the highest
    /// dynamic priority (the earliest among equals) becomes the owner and is
    /// returned; with no waiter the lock becomes free.
    pub fn lock_release(&mut self, tasks: &mut Vec<Task>, restored: u8) -> (r: Option<TaskId>)
        requires
            old(self)@.owner is Some,
        ensures
            (final(self)@, views(final(tasks)@)) == released(old(self)@, views(old(tasks)@), restored),
            r == final(self)@.owner,
    {
        let owner_id = self.owner.unwrap();
        set_dyn(tasks, owner_id, restored);
        if let Some(i) = find_task(tasks, owner_id) {
            drop_held_at(tasks, i, self.id);
        }
        if self.waiters.len() == 0 {
            self.owner = None;
            return None;
        }
        let mut best: usize = 0;
        let mut best_priority: u8 = dyn_priority_of(tasks, self.waiters[0]);
        let mut i: usize = 1;
        while i < self.waiters.len()
            invariant
                1 <= i <= self.waiters@.len(),
                best < i,
                best_priority == dyn_of(views(tasks@), self.waiters@[best as int]),
                forall|j: int| 0 <= j < i ==> dyn_of(views(tasks@), #[trigger] self.waiters@[j]) <= best_priority,
                forall|j: int| 0 <= j < best ==> dyn_of(views(tasks@), #[trigger] self.waiters@[j]) < best_priority,
            decreases self.waiters@.len() - i,
        {
            let d = dyn_priority_of(tasks, self.waiters[i]);
            if d > best_priority {
                best = i;
                best_priority = d;
            }
            i = i + 1;
        }
        proof {
            lemma_first_max_unique(views(tasks@), self.waiters@, best as int);
        }
        let w = self.waiters.remove(best);
        self.owner = Some(w);
        if let Some(k) = find_task(tasks, w) {
            push_held_at(tasks, k, self.id);
        }
        Some(w)
    }
}

} // verus!
