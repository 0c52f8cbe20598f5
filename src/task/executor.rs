//! The cooperative, priority-ordered scheduler and its lock table.
use vstd::prelude::*;
use crate::task::lock::LockId;
use crate::task::pinh::{
    LockView, PriLock, boosted, first_max_pos, is_first_max, lemma_first_max_unique, max_prio,
    max_waiter, released, dyn_priority_of,
};
use crate::task::{
    Task, TaskId, TaskView, views, same_ids, lemma_updates_keep_ids, has_task, task_pos, dyn_of, base_of, with_held, find_task,
    is_pos,
};

verus! {

/// What the scheduler knows: its tasks, the ready queue in insertion order,
/// its locks, and the counters that name new tasks and locks.
pub struct ExecutorView {
    pub tasks: Seq<TaskView>,
    pub ready: Seq<TaskId>,
    pub locks: Seq<LockView>,
    pub next_task_id: u64,
    pub next_lock_id: u64,
}

/// `i` is the first position of lock `id` in `ls`.
pub open spec fn is_lock_pos(ls: Seq<LockView>, id: LockId, i: int) -> bool {
    &&& 0 <= i < ls.len()
    &&& ls[i].id == id
    &&& forall|j: int| 0 <= j < i ==> #[trigger] ls[j].id != id
}

pub open spec fn has_lock(ls: Seq<LockView>, id: LockId) -> bool {
    exists|i: int| 0 <= i < ls.len() && #[trigger] ls[i].id == id
}

pub open spec fn lock_pos(ls: Seq<LockView>, id: LockId) -> int {
    choose|i: int| is_lock_pos(ls, id, i)
}

/// The owner of lock `id`.
pub open spec fn owner_of(v: ExecutorView, id: LockId) -> Option<TaskId> {
    v.locks[lock_pos(v.locks, id)].owner
}

/// Task `t` waits for some lock.
pub open spec fn blocked(v: ExecutorView, t: TaskId) -> bool {
    exists|i: int| 0 <= i < v.locks.len() && #[trigger] v.locks[i].waiters.contains(t)
}

/// Task `t` exists and waits for no lock.
pub open spec fn runnable(v: ExecutorView, t: TaskId) -> bool {
    has_task(v.tasks, t) && !blocked(v, t)
}

/// The entries of `q` whose tasks are runnable, in order.
pub open spec fn live(v: ExecutorView, q: Seq<TaskId>) -> Seq<TaskId>
    decreases q.len(),
{
    if q.len() == 0 {
        q
    } else if runnable(v, q.last()) {
        live(v, q.drop_last()).push(q.last())
    } else {
        live(v, q.drop_last())
    }
}

/// One aging step of a task: its dynamic priority rises by one, up to 255.
pub open spec fn aged(t: TaskView) -> TaskView {
    TaskView { dyn_priority: if t.dyn_priority == 255 { 255u8 } else { (t.dyn_priority + 1) as u8 }, ..t }
}

pub open spec fn age_all(v: ExecutorView) -> ExecutorView {
    ExecutorView { tasks: v.tasks.map_values(|t: TaskView| aged(t)), ..v }
}

/// The scheduler after the pick step and the task picked: entries of tasks
/// that are gone or blocked are dropped, then the entry whose task has the
/// highest dynamic priority (the earliest among equals) leaves the queue.
pub open spec fn picked(v: ExecutorView) -> (ExecutorView, Option<TaskId>) {
    let q = live(v, v.ready);
    if q.len() == 0 {
        (ExecutorView { ready: q, ..v }, None)
    } else {
        let k = first_max_pos(v.tasks, q);
        (ExecutorView { ready: q.remove(k), ..v }, Some(q[k]))
    }
}

/// One scheduling cycle: aging, then the pick.
pub open spec fn cycle(v: ExecutorView) -> (ExecutorView, Option<TaskId>) {
    picked(age_all(v))
}

pub open spec fn spawned(v: ExecutorView, priority: u8) -> ExecutorView {
    let id = TaskId(v.next_task_id);
    ExecutorView {
        tasks: v.tasks.push(TaskView { id, base_priority: priority, dyn_priority: priority, locks_held: Seq::empty() }),
        ready: v.ready.push(id),
        next_task_id: (v.next_task_id + 1) as u64,
        ..v
    }
}

/// The scheduler after task `t` asks for lock `l`.
pub open spec fn acquired(v: ExecutorView, t: TaskId, l: LockId) -> ExecutorView {
    let i = lock_pos(v.locks, l);
    let lk = v.locks[i];
    match lk.owner {
        None => ExecutorView {
            locks: v.locks.update(i, LockView { owner: Some(t), ..lk }),
            tasks: with_held(v.tasks, t, l),
            ready: v.ready.push(t),
            ..v
        },
        Some(o) => if o == t {
            v
        } else {
            ExecutorView {
                locks: v.locks.update(i, LockView { waiters: lk.waiters.push(t), ..lk }),
                tasks: boosted(v.tasks, o, t),
                ready: v.ready.push(o),
                ..v
            }
        },
    }
}

/// The highest waiter priority over the first `n` locks that `t` owns,
/// other than `l`.
pub open spec fn others_max(v: ExecutorView, t: TaskId, l: LockId, n: int) -> u8
    decreases n,
{
    if n <= 0 {
        0
    } else {
        let lk = v.locks[n - 1];
        max_prio(
            others_max(v, t, l, n - 1),
            if lk.owner == Some(t) && lk.id != l { max_waiter(v.tasks, lk.waiters) } else { 0 },
        )
    }
}

/// The dynamic priority `t` falls back to when it releases `l`: its base
/// priority, or the highest priority waiting on another lock it still holds.
pub open spec fn restored_priority(v: ExecutorView, t: TaskId, l: LockId) -> u8 {
    max_prio(base_of(v.tasks, t), others_max(v, t, l, v.locks.len() as int))
}

/// The scheduler after `t`, the owner of `l`, releases it; a waiter that
/// receives the lock joins the ready queue.
pub open spec fn released_by(v: ExecutorView, t: TaskId, l: LockId) -> ExecutorView {
    let i = lock_pos(v.locks, l);
    let (lk, ts) = released(v.locks[i], v.tasks, restored_priority(v, t, l));
    ExecutorView {
        locks: v.locks.update(i, lk),
        tasks: ts,
        ready: match lk.owner {
            Some(w) => v.ready.push(w),
            None => v.ready,
        },
        ..v
    }
}

/// The scheduler after releasing, in table order, each of the first `n`
/// locks that `t` owns.
pub open spec fn released_all(v: ExecutorView, t: TaskId, n: int) -> ExecutorView
    decreases n,
{
    if n <= 0 {
        v
    } else {
        let u = released_all(v, t, n - 1);
        if n - 1 < u.locks.len() && u.locks[n - 1].owner == Some(t) {
            released_by(u, t, u.locks[n - 1].id)
        } else {
            u
        }
    }
}

/// The scheduler after task `t` completes: it releases every lock it holds
/// and leaves the task table.
pub open spec fn completed(v: ExecutorView, t: TaskId) -> ExecutorView {
    let u = released_all(v, t, v.locks.len() as int);
    ExecutorView { tasks: u.tasks.remove(task_pos(u.tasks, t)), ..u }
}

proof fn lemma_lock_pos_unique(ls: Seq<LockView>, id: LockId, i: int)
    requires
        is_lock_pos(ls, id, i),
    ensures
        has_lock(ls, id),
        lock_pos(ls, id) == i,
{
    assert(ls[i].id == id);
    let k = lock_pos(ls, id);
    assert(is_lock_pos(ls, id, k));
    if k < i {
        assert(ls[k].id != id);
    } else if i < k {
        assert(ls[i].id != id);
    }
}

/// A lock in the table has a first position.
pub proof fn lemma_lock_pos(ls: Seq<LockView>, id: LockId)
    ensures
        has_lock(ls, id) ==> is_lock_pos(ls, id, lock_pos(ls, id)),
{
    if has_lock(ls, id) {
        let i = choose|i: int| 0 <= i < ls.len() && #[trigger] ls[i].id == id;
        lemma_first_lock_pos(ls, id, i);
    }
}

proof fn lemma_first_lock_pos(ls: Seq<LockView>, id: LockId, i: int)
    requires
        0 <= i < ls.len(),
        ls[i].id == id,
    ensures
        exists|k: int| is_lock_pos(ls, id, k),
    decreases i,
{
    if exists|j: int| 0 <= j < i && #[trigger] ls[j].id == id {
        let j = choose|j: int| 0 <= j < i && #[trigger] ls[j].id == id;
        lemma_first_lock_pos(ls, id, j);
    } else {
        assert(is_lock_pos(ls, id, i));
    }
}

proof fn lemma_task_has(a: Seq<TaskView>, b: Seq<TaskView>, id: TaskId)
    requires
        same_ids(b, a),
        has_task(a, id),
    ensures
        has_task(b, id),
{
    let i = choose|i: int| 0 <= i < a.len() && #[trigger] a[i].id == id;
    assert(b[i].id == id);
}

/// The scheduler: tasks, ready queue and lock table. Whoever drives it
/// polls the task it picks and reports back when one completes.
pub struct Executor {
    tasks: Vec<Task>,
    ready: Vec<TaskId>,
    locks: Vec<PriLock>,
    next_task_id: u64,
    next_lock_id: u64,
}

pub open spec fn lock_views(ls: Seq<PriLock>) -> Seq<LockView> {
    ls.map_values(|l: PriLock| l@)
}

impl Executor {
    pub closed spec fn view(&self) -> ExecutorView {
        ExecutorView {
            tasks: views(self.tasks@),
            ready: self.ready@,
            locks: lock_views(self.locks@),
            next_task_id: self.next_task_id,
            next_lock_id: self.next_lock_id,
        }
    }

    /// Task ids are unique and below the task counter; lock ids likewise.
    pub open spec fn wf(&self) -> bool {
        &&& forall|i: int, j: int| 0 <= i < j < self@.tasks.len() ==> self@.tasks[i].id != self@.tasks[j].id
        &&& forall|i: int| 0 <= i < self@.tasks.len() ==> (#[trigger] self@.tasks[i]).id.0 < self@.next_task_id
        &&& forall|i: int, j: int| 0 <= i < j < self@.locks.len() ==> self@.locks[i].id != self@.locks[j].id
        &&& forall|i: int| 0 <= i < self@.locks.len() ==> (#[trigger] self@.locks[i]).id.0 < self@.next_lock_id
    }

    pub fn new() -> (r: Executor)
        ensures
            r.wf(),
            r@ == (ExecutorView {
                tasks: Seq::empty(),
                ready: Seq::empty(),
                locks: Seq::empty(),
                next_task_id: 0,
                next_lock_id: 0,
            }),
    {
        let r = Executor { tasks: Vec::new(), ready: Vec::new(), locks: Vec::new(), next_task_id: 0, next_lock_id: 0 };
        assert(r@.tasks =~= Seq::<TaskView>::empty());
        assert(r@.locks =~= Seq::<LockView>::empty());
        r
    }

    /// Adds a task of the given priority to the table and the ready queue and
    /// returns its id, the next value of the task counter.
    pub fn spawn(&mut self, priority: u8) -> (r: TaskId)
        requires
            old(self).wf(),
            old(self)@.next_task_id < u64::MAX,
        ensures
            final(self).wf(),
            r == TaskId(old(self)@.next_task_id),
            !has_task(old(self)@.tasks, r),
            final(self)@ == spawned(old(self)@, priority),
    {
        let task = Task::new(&mut self.next_task_id, priority);
        let id = task.id;
        self.tasks.push(task);
        self.ready.push(id);
        assert(self@.tasks =~= spawned(old(self)@, priority).tasks);
        assert forall|i: int| 0 <= i < old(self)@.tasks.len() implies #[trigger] old(self)@.tasks[i].id != id by {}
        id
    }

    /// A waker fired for `task_id`: it joins the ready queue.
    pub fn wake(&mut self, task_id: TaskId)
        requires
            old(self).wf(),
        ensures
            final(self).wf(),
            final(self)@ == (ExecutorView { ready: old(self)@.ready.push(task_id), ..old(self)@ }),
    {
        self.ready.push(task_id);
    }

    /// Whether the ready queue is empty.
    pub fn is_idle(&self) -> (r: bool)
        ensures
            r == (self@.ready.len() == 0),
    {
        self.ready.len() == 0
    }

    /// Dynamic priority of `task_id`; 0 for an unknown task.
    pub fn dyn_priority(&self, task_id: TaskId) -> (r: u8)
        ensures
            r == dyn_of(self@.tasks, task_id),
    {
        dyn_priority_of(&self.tasks, task_id)
    }

    /// The id the next spawned task gets; `spawn` needs it below `u64::MAX`.
    pub fn next_task_id(&self) -> (r: u64)
        ensures
            r == self@.next_task_id,
    {
        self.next_task_id
    }

    /// The id the next created lock gets; `create_lock` needs it below `u64::MAX`.
    pub fn next_lock_id(&self) -> (r: u64)
        ensures
            r == self@.next_lock_id,
    {
        self.next_lock_id
    }

    /// The owner of lock `lock_id`, if the lock exists and is held.
    pub fn lock_owner(&self, lock_id: LockId) -> (r: Option<TaskId>)
        ensures
            has_lock(self@.locks, lock_id) ==> r == owner_of(self@, lock_id),
            !has_lock(self@.locks, lock_id) ==> r is None,
    {
        match self.find_lock(lock_id) {
            Some(i) => {
                assert(self@.locks[i as int] == self.locks@[i as int]@);
                self.locks[i].owner()
            },
            None => None,
        }
    }

    /// Whether `task_id` is in the task table.
    pub fn has_task(&self, task_id: TaskId) -> (r: bool)
        ensures
            r == has_task(self@.tasks, task_id),
    {
        find_task(&self.tasks, task_id).is_some()
    }

    /// Position of lock `id` in the lock table, if it is there.
    fn find_lock(&self, id: LockId) -> (r: Option<usize>)
        ensures
            r matches Some(i) ==> is_lock_pos(self@.locks, id, i as int) && lock_pos(self@.locks, id) == i,
            r is None <==> !has_lock(self@.locks, id),
    {
        let ghost ls = self@.locks;
        let mut i: usize = 0;
        while i < self.locks.len()
            invariant
                ls == self@.locks,
                ls == lock_views(self.locks@),
                i <= self.locks@.len(),
                forall|j: int| 0 <= j < i ==> #[trigger] ls[j].id != id,
            decreases self.locks@.len() - i,
        {
            if self.locks[i].id() == id {
                proof {
                    assert(ls[i as int] == self.locks@[i as int]@);
                    let k = lock_pos(ls, id);
                    assert(is_lock_pos(ls, id, i as int));
                    assert(is_lock_pos(ls, id, k));
                    if k < i {
                        assert(ls[k].id != id);
                    } else if i < k {
                        assert(ls[i as int].id != id);
                    }
                }
                return Some(i);
            }
            assert(ls[i as int] == self.locks@[i as int]@);
            i = i + 1;
        }
        assert forall|j: int| 0 <= j < ls.len() implies #[trigger] ls[j].id != id by {}
        None
    }

    /// Whether `t` waits for some lock.
    pub fn is_blocked(&self, t: TaskId) -> (r: bool)
        ensures
            r == blocked(self@, t),
    {
        let mut i: usize = 0;
        while i < self.locks.len()
            invariant
                i <= self.locks@.len(),
                forall|j: int| 0 <= j < i ==> !(#[trigger] self@.locks[j]).waiters.contains(t),
            decreases self.locks@.len() - i,
        {
            assert(self@.locks[i as int] == self.locks@[i as int]@);
            if self.locks[i].has_waiter(t) {
                return true;
            }
            i = i + 1;
        }
        false
    }

    /// Aging: every task's dynamic priority rises by one, up to 255.
    pub fn age_tasks(&mut self)
        requires
            old(self).wf(),
        ensures
            final(self).wf(),
            final(self)@ == age_all(old(self)@),
    {
        let ghost v0 = self@;
        let mut i: usize = 0;
        while i < self.tasks.len()
            invariant
                i <= self.tasks@.len(),
                self.tasks@.len() == v0.tasks.len(),
                self@.tasks.len() == v0.tasks.len(),
                forall|j: int| 0 <= j < i ==> self@.tasks[j] == aged(#[trigger] v0.tasks[j]),
                forall|j: int| i <= j < v0.tasks.len() ==> self@.tasks[j] == v0.tasks[j],
                self@.ready == v0.ready,
                self@.locks == v0.locks,
                self@.next_task_id == v0.next_task_id,
                self@.next_lock_id == v0.next_lock_id,
            decreases self.tasks@.len() - i,
        {
            let d = self.tasks[i].meta.dyn_priority;
            let nd: u8 = if d == 255 { 255 } else { d + 1 };
            crate::task::set_dyn_at(&mut self.tasks, i, nd);
            i = i + 1;
        }
        assert(self@.tasks =~= v0.tasks.map_values(|t: TaskView| aged(t)));
    }

    /// The pick step: drops ready entries whose tasks are gone or blocked,
    /// then removes and returns the entry whose task has the highest dynamic
    /// priority, the earliest among equals; `None` when nothing is runnable.
    pub fn next_ready(&mut self) -> (r: Option<TaskId>)
        requires
            old(self).wf(),
        ensures
            final(self).wf(),
            (final(self)@, r) == picked(old(self)@),
    {
        let ghost v = self@;
        let mut q: Vec<TaskId> = Vec::new();
        let mut i: usize = 0;
        while i < self.ready.len()
            invariant
                self@ == v,
                i <= v.ready.len(),
                q@ == live(v, v.ready.take(i as int)),
            decreases v.ready.len() - i,
        {
            let t = self.ready[i];
            proof {
                assert(v.ready.take(i + 1).drop_last() =~= v.ready.take(i as int));
            }
            if find_task(&self.tasks, t).is_some() && !self.is_blocked(t) {
                q.push(t);
            }
            i = i + 1;
        }
        assert(v.ready.take(v.ready.len() as int) =~= v.ready);
        if q.len() == 0 {
            self.ready = q;
            return None;
        }
        let mut best: usize = 0;
        let mut best_priority: u8 = dyn_priority_of(&self.tasks, q[0]);
        let mut j: usize = 1;
        while j < q.len()
            invariant
                self@ == v,
                1 <= j <= q@.len(),
                best < j,
                best_priority == dyn_of(v.tasks, q@[best as int]),
                forall|k: int| 0 <= k < j ==> dyn_of(v.tasks, #[trigger] q@[k]) <= best_priority,
                forall|k: int| 0 <= k < best ==> dyn_of(v.tasks, #[trigger] q@[k]) < best_priority,
            decreases q@.len() - j,
        {
            let d = dyn_priority_of(&self.tasks, q[j]);
            if d > best_priority {
                best = j;
                best_priority = d;
            }
            j = j + 1;
        }
        proof {
            lemma_first_max_unique(v.tasks, q@, best as int);
        }
        let t = q.remove(best);
        self.ready = q;
        Some(t)
    }

    /// One scheduling cycle: aging, then the pick. Returns the task to poll.
    pub fn schedule(&mut self) -> (r: Option<TaskId>)
        requires
            old(self).wf(),
        ensures
            final(self).wf(),
            (final(self)@, r) == cycle(old(self)@),
    {
        self.age_tasks();
        self.next_ready()
    }

    /// Adds a free lock and returns its id, the next value of the lock counter.
    pub fn create_lock(&mut self) -> (r: LockId)
        requires
            old(self).wf(),
            old(self)@.next_lock_id < u64::MAX,
        ensures
            final(self).wf(),
            r == LockId(old(self)@.next_lock_id),
            final(self)@ == (ExecutorView {
                locks: old(self)@.locks.push(LockView { id: r, owner: None, waiters: Seq::empty() }),
                next_lock_id: (old(self)@.next_lock_id + 1) as u64,
                ..old(self)@
            }),
    {
        let id = LockId::new(self.next_lock_id);
        self.locks.push(PriLock::new(id));
        self.next_lock_id = self.next_lock_id + 1;
        assert(self@.locks =~= old(self)@.locks.push(LockView { id, owner: None, waiters: Seq::empty() }));
        id
    }

    /// Task `task_id` asks for lock `lock_id`. A free lock becomes its own
    /// and the task joins the ready queue; a lock held by another task takes
    /// it as a waiter (it does not join the ready queue) and the owner's
    /// dynamic priority rises to at least the task's, the owner joining the
    /// ready queue; a lock it holds already is left as it is. Returns whether
    /// the task holds the lock afterwards.
    pub fn acquire(&mut self, task_id: TaskId, lock_id: LockId) -> (r: bool)
        requires
            old(self).wf(),
            has_task(old(self)@.tasks, task_id),
            has_lock(old(self)@.locks, lock_id),
        ensures
            final(self).wf(),
            final(self)@ == acquired(old(self)@, task_id, lock_id),
            r == (acquired(old(self)@, task_id, lock_id).locks[lock_pos(old(self)@.locks, lock_id)].owner == Some(task_id)),
    {
        let ghost v = self@;
        let i = match self.find_lock(lock_id) {
            Some(i) => i,
            None => return false,
        };
        let mut lk = self.locks.remove(i);
        assert(lk@ == v.locks[i as int]);
        let before = lk.owner();
        let r = lk.lock_acquire(&mut self.tasks, task_id);
        let ghost after = lk@;
        self.locks.insert(i, lk);
        assert(lock_views(self.locks@) =~= v.locks.update(i as int, after));
        match before {
            None => self.ready.push(task_id),
            Some(o) => {
                if o != task_id {
                    self.ready.push(o);
                }
            },
        }
        proof {
            lemma_updates_keep_ids(v.tasks, task_id, lock_id, 0);
            match before {
                Some(o) => {
                    lemma_updates_keep_ids(v.tasks, o, lock_id, max_prio(dyn_of(v.tasks, o), dyn_of(v.tasks, task_id)));
                },
                None => {},
            }
            assert(same_ids(self@.tasks, v.tasks));
            assert(lock_pos(v.locks, lock_id) == i);
            let a = acquired(v, task_id, lock_id);
            assert(self@.locks == a.locks);
            assert(self@.tasks == a.tasks);
            assert(self@.ready == a.ready);
            assert(self@.next_task_id == a.next_task_id);
            assert forall|a: int| 0 <= a < self@.tasks.len() implies (#[trigger] self@.tasks[a]).id == v.tasks[a].id by {}
        }
        r
    }

    /// Task `task_id`, the owner of lock `lock_id`, releases it. Its dynamic
    /// priority falls back to its base priority or the highest priority
    /// waiting on another lock it still holds, and the lock leaves the locks
    /// it holds. The waiter with the highest dynamic priority (the earliest
    /// among equals) becomes the owner and joins the ready queue; with no
    /// waiter the lock becomes free.
    pub fn release(&mut self, task_id: TaskId, lock_id: LockId)
        requires
            old(self).wf(),
            has_lock(old(self)@.locks, lock_id),
            owner_of(old(self)@, lock_id) == Some(task_id),
        ensures
            final(self).wf(),
            final(self)@ == released_by(old(self)@, task_id, lock_id),
            same_ids(final(self)@.tasks, old(self)@.tasks),
            final(self)@.locks.len() == old(self)@.locks.len(),
            forall|a: int| 0 <= a < final(self)@.locks.len() ==> (#[trigger] final(self)@.locks[a]).id == old(self)@.locks[a].id,
    {
        let ghost v = self@;
        let mut acc: u8 = 0;
        let mut j: usize = 0;
        while j < self.locks.len()
            invariant
                self@ == v,
                j <= self.locks@.len(),
                acc == others_max(v, task_id, lock_id, j as int),
            decreases self.locks@.len() - j,
        {
            assert(v.locks[j as int] == self.locks@[j as int]@);
            if self.locks[j].owner() == Some(task_id) && self.locks[j].id() != lock_id {
                let m = self.locks[j].max_waiter_priority(&self.tasks);
                if m > acc {
                    acc = m;
                }
            }
            j = j + 1;
        }
        let base = match find_task(&self.tasks, task_id) {
            Some(i) => self.tasks[i].meta.base_priority,
            None => 0,
        };
        let restored = if base >= acc {
            base
        } else {
            acc
        };
        assert(restored == restored_priority(v, task_id, lock_id));
        let i = match self.find_lock(lock_id) {
            Some(i) => i,
            None => return,
        };
        let mut lk = self.locks.remove(i);
        assert(lk@ == v.locks[i as int]);
        let new_owner = lk.lock_release(&mut self.tasks, restored);
        let ghost after = lk@;
        self.locks.insert(i, lk);
        assert(lock_views(self.locks@) =~= v.locks.update(i as int, after));
        if let Some(w) = new_owner {
            self.ready.push(w);
        }
        proof {
            let o = task_id;
            let ts1 = crate::task::without_held(crate::task::with_dyn(v.tasks, o, restored), o, lock_id);
            lemma_updates_keep_ids(v.tasks, o, lock_id, restored);
            lemma_updates_keep_ids(crate::task::with_dyn(v.tasks, o, restored), o, lock_id, restored);
            if v.locks[i as int].waiters.len() > 0 {
                let w = v.locks[i as int].waiters[first_max_pos(ts1, v.locks[i as int].waiters)];
                lemma_updates_keep_ids(ts1, w, lock_id, restored);
            }
            assert(same_ids(self@.tasks, v.tasks));
            assert forall|a: int| 0 <= a < self@.tasks.len() implies (#[trigger] self@.tasks[a]).id == v.tasks[a].id by {}
            assert forall|a: int| 0 <= a < self@.locks.len() implies (#[trigger] self@.locks[a]).id == v.locks[a].id by {}
        }
    }

    /// Task `task_id` completed: it releases, in table order, every lock it
    /// holds, and leaves the task table.
    pub fn complete(&mut self, task_id: TaskId)
        requires
            old(self).wf(),
            has_task(old(self)@.tasks, task_id),
        ensures
            final(self).wf(),
            final(self)@ == completed(old(self)@, task_id),
    {
        let ghost v = self@;
        let mut n: usize = 0;
        while n < self.locks.len()
            invariant
                self.wf(),
                n <= self@.locks.len(),
                self@ == released_all(v, task_id, n as int),
                self@.locks.len() == v.locks.len(),
                same_ids(self@.tasks, v.tasks),
            decreases self@.locks.len() - n,
        {
            assert(self@.locks[n as int] == self.locks@[n as int]@);
            if self.locks[n].owner() == Some(task_id) {
                let l = self.locks[n].id();
                proof {
                    assert forall|j: int| 0 <= j < n implies #[trigger] self@.locks[j].id != l by {}
                    lemma_lock_pos_unique(self@.locks, l, n as int);
                }
                self.release(task_id, l);
            }
            n = n + 1;
        }
        let ghost u = self@;
        proof {
            lemma_task_has(v.tasks, u.tasks, task_id);
        }
        if let Some(i) = find_task(&self.tasks, task_id) {
            self.tasks.remove(i);
            assert(self@.tasks =~= u.tasks.remove(i as int));
        }
    }
}

proof fn lemma_aged_pos(ts: Seq<TaskView>, id: TaskId, i: int)
    ensures
        is_pos(ts, id, i) <==> is_pos(ts.map_values(|t: TaskView| aged(t)), id, i),
{
    let us = ts.map_values(|t: TaskView| aged(t));
    if is_pos(ts, id, i) {
        assert forall|j: int| 0 <= j < i implies #[trigger] us[j].id != id by {
            assert(ts[j].id != id);
        }
    }
    if is_pos(us, id, i) {
        assert forall|j: int| 0 <= j < i implies #[trigger] ts[j].id != id by {
            assert(us[j].id != id);
        }
    }
}

/// Aging keeps which tasks exist and raises each dynamic priority by one,
/// up to 255.
pub proof fn lemma_age_all(v: ExecutorView, id: TaskId)
    ensures
        has_task(age_all(v).tasks, id) == has_task(v.tasks, id),
        runnable(age_all(v), id) == runnable(v, id),
        has_task(v.tasks, id) ==> dyn_of(age_all(v).tasks, id) as int == if dyn_of(v.tasks, id) == 255 { 255 } else { dyn_of(v.tasks, id) + 1 },
{
    let ts = v.tasks;
    let us = age_all(v).tasks;
    assert(age_all(v).locks == v.locks);
    assert(blocked(age_all(v), id) == blocked(v, id));
    if has_task(ts, id) {
        let i = choose|i: int| 0 <= i < ts.len() && #[trigger] ts[i].id == id;
        assert(us[i].id == id);
        crate::task::lemma_task_pos(ts, id);
        let p = task_pos(ts, id);
        lemma_aged_pos(ts, id, p);
        crate::task::lemma_pos_unique(us, id, p);
    } else if has_task(us, id) {
        let i = choose|i: int| 0 <= i < us.len() && #[trigger] us[i].id == id;
        assert(ts[i].id == id);
    }
}

/// Every runnable entry of `q` is in `live(v, q)`, and `live(v, q)` holds
/// only runnable entries of `q`.
pub proof fn lemma_live(v: ExecutorView, q: Seq<TaskId>)
    ensures
        forall|t: TaskId| q.contains(t) && runnable(v, t) ==> live(v, q).contains(t),
        forall|j: int| 0 <= j < live(v, q).len() ==> runnable(v, #[trigger] live(v, q)[j]) && q.contains(live(v, q)[j]),
        live(v, q).len() <= q.len(),
    decreases q.len(),
{
    if q.len() > 0 {
        let p = q.drop_last();
        lemma_live(v, p);
        assert forall|t: TaskId| q.contains(t) && runnable(v, t) implies live(v, q).contains(t) by {
            let i = choose|i: int| 0 <= i < q.len() && q[i] == t;
            if i < q.len() - 1 {
                assert(p[i] == t);
                let k = choose|k: int| 0 <= k < live(v, p).len() && live(v, p)[k] == t;
                assert(live(v, q)[k] == t);
            } else {
                assert(live(v, q).last() == t);
            }
        }
        assert forall|j: int| 0 <= j < live(v, q).len() implies runnable(v, #[trigger] live(v, q)[j]) && q.contains(live(v, q)[j]) by {
            if j < live(v, p).len() {
                assert(live(v, q)[j] == live(v, p)[j]);
                let i = choose|i: int| 0 <= i < p.len() && p[i] == live(v, p)[j];
                assert(q[i] == p[i]);
            } else {
                assert(q[q.len() - 1] == q.last());
            }
        }
    }
}

/// A non-empty queue has a first entry of highest priority.
pub proof fn lemma_first_max_exists(ts: Seq<TaskView>, q: Seq<TaskId>)
    requires
        q.len() > 0,
    ensures
        is_first_max(ts, q, first_max_pos(ts, q)),
    decreases q.len(),
{
    if q.len() == 1 {
        assert(is_first_max(ts, q, 0));
    } else {
        let p = q.drop_last();
        lemma_first_max_exists(ts, p);
        let k = first_max_pos(ts, p);
        if dyn_of(ts, q.last()) > dyn_of(ts, p[k]) {
            assert forall|j: int| 0 <= j < q.len() - 1 implies dyn_of(ts, #[trigger] q[j]) < dyn_of(ts, q[q.len() - 1]) by {
                assert(q[j] == p[j]);
            }
            assert(is_first_max(ts, q, q.len() - 1));
        } else {
            assert forall|j: int| 0 <= j < q.len() implies dyn_of(ts, #[trigger] q[j]) <= dyn_of(ts, q[k]) by {
                if j < q.len() - 1 {
                    assert(q[j] == p[j]);
                }
            }
            assert forall|j: int| 0 <= j < k implies dyn_of(ts, #[trigger] q[j]) < dyn_of(ts, q[k]) by {
                assert(q[j] == p[j]);
            }
            assert(is_first_max(ts, q, k));
        }
    }
}

/// Priority order within a cycle: when two runnable tasks are in the ready
/// queue and the first has the higher dynamic priority, the cycle does not
/// pick the second. (Aging would make them equal only when the second
/// stands at 254 and the first at 255.)
pub proof fn higher_priority_runs_first(v: ExecutorView, a: TaskId, b: TaskId)
    requires
        v.ready.contains(a),
        runnable(v, a),
        has_task(v.tasks, b),
        dyn_of(v.tasks, a) > dyn_of(v.tasks, b),
        dyn_of(v.tasks, b) < 254,
    ensures
        cycle(v).1 != Some(b),
{
    let w = age_all(v);
    lemma_age_all(v, a);
    lemma_age_all(v, b);
    lemma_live(w, v.ready);
    let q = live(w, v.ready);
    assert(q.contains(a));
    lemma_first_max_exists(w.tasks, q);
    let k = first_max_pos(w.tasks, q);
    let ia = choose|i: int| 0 <= i < q.len() && q[i] == a;
    assert(dyn_of(w.tasks, q[ia]) <= dyn_of(w.tasks, q[k]));
}

/// Priority inheritance: when `high` asks for a lock that `low` holds,
/// `low`'s dynamic priority becomes at least `high`'s; when `low` then
/// releases a lock, its dynamic priority becomes exactly its base priority
/// or the highest priority waiting on another lock it still holds,
/// whichever is larger.
pub proof fn priority_inheritance(v: ExecutorView, low: TaskId, high: TaskId, l: LockId)
    requires
        has_lock(v.locks, l),
        owner_of(v, l) == Some(low),
        low != high,
        has_task(v.tasks, low),
        !v.locks[lock_pos(v.locks, l)].waiters.contains(low),
    ensures
        dyn_of(acquired(v, high, l).tasks, low) >= dyn_of(v.tasks, high),
        dyn_of(released_by(v, low, l).tasks, low) == restored_priority(v, low, l),
        restored_priority(v, low, l) == max_prio(base_of(v.tasks, low), others_max(v, low, l, v.locks.len() as int)),
{
    lemma_lock_pos(v.locks, l);
    let ts = v.tasks;
    crate::task::lemma_task_pos(ts, low);
    let p = task_pos(ts, low);
    let d = max_prio(dyn_of(ts, low), dyn_of(ts, high));
    let ts_b = crate::task::with_dyn(ts, low, d);
    assert(is_pos(ts_b, low, p));
    crate::task::lemma_pos_unique(ts_b, low, p);
    let r = restored_priority(v, low, l);
    let ts0 = crate::task::with_dyn(ts, low, r);
    assert(is_pos(ts0, low, p));
    crate::task::lemma_pos_unique(ts0, low, p);
    let ts1 = crate::task::without_held(ts0, low, l);
    assert(is_pos(ts1, low, p));
    crate::task::lemma_pos_unique(ts1, low, p);
    let lk = v.locks[lock_pos(v.locks, l)];
    if lk.waiters.len() > 0 {
        lemma_first_max_exists(ts1, lk.waiters);
        let w = lk.waiters[first_max_pos(ts1, lk.waiters)];
        assert(w != low);
        let ts2 = with_held(ts1, w, l);
        crate::task::lemma_task_pos(ts1, w);
        if has_task(ts1, w) {
            let pw = task_pos(ts1, w);
            assert(pw != p);
            assert(is_pos(ts2, low, p));
            crate::task::lemma_pos_unique(ts2, low, p);
        } else {
            assert(ts2 == ts1);
        }
    }
}

/// The scheduler after `n` cycles with no other event.
pub open spec fn run_cycles(v: ExecutorView, n: nat) -> ExecutorView
    decreases n,
{
    if n == 0 {
        v
    } else {
        run_cycles(cycle(v).0, (n - 1) as nat)
    }
}

/// The task picked in cycle `c` (counting from 1) of a run with no other event.
pub open spec fn picked_in_cycle(v: ExecutorView, c: nat) -> Option<TaskId> {
    cycle(run_cycles(v, (c - 1) as nat)).1
}

/// `t` has the first runnable entry of the ready queue.
pub open spec fn first_in_line(v: ExecutorView, t: TaskId) -> bool {
    live(v, v.ready).len() > 0 && live(v, v.ready)[0] == t
}

/// Cycles within which a task of dynamic priority `d` at the front of the
/// line is picked.
pub open spec fn wait_bound(d: u8) -> nat {
    if d == 255 {
        1
    } else {
        (255 - d) as nat
    }
}

proof fn lemma_live_same(v: ExecutorView, w: ExecutorView, q: Seq<TaskId>)
    requires
        forall|t: TaskId| runnable(v, t) == runnable(w, t),
    ensures
        live(v, q) == live(w, q),
    decreases q.len(),
{
    if q.len() > 0 {
        lemma_live_same(v, w, q.drop_last());
    }
}

proof fn lemma_live_all(v: ExecutorView, q: Seq<TaskId>)
    requires
        forall|j: int| 0 <= j < q.len() ==> runnable(v, #[trigger] q[j]),
    ensures
        live(v, q) == q,
    decreases q.len(),
{
    if q.len() > 0 {
        let p = q.drop_last();
        assert forall|j: int| 0 <= j < p.len() implies runnable(v, #[trigger] p[j]) by {
            assert(p[j] == q[j]);
        }
        lemma_live_all(v, p);
        assert(runnable(v, q[q.len() - 1]));
        assert(p.push(q.last()) =~= q);
    }
}

proof fn lemma_cycle_step(v: ExecutorView, t: TaskId)
    requires
        first_in_line(v, t),
    ensures
        dyn_of(age_all(v).tasks, t) == 255 ==> cycle(v).1 == Some(t),
        cycle(v).1 != Some(t) ==> first_in_line(cycle(v).0, t) && dyn_of(cycle(v).0.tasks, t) as int
            == if dyn_of(v.tasks, t) == 255 { 255 } else { dyn_of(v.tasks, t) + 1 },
{
    let w = age_all(v);
    assert forall|x: TaskId| runnable(v, x) == runnable(w, x) by {
        lemma_age_all(v, x);
    }
    lemma_live_same(v, w, v.ready);
    let q = live(w, v.ready);
    lemma_live(v, v.ready);
    assert(runnable(v, t));
    lemma_age_all(v, t);
    lemma_first_max_exists(w.tasks, q);
    let k = first_max_pos(w.tasks, q);
    if dyn_of(w.tasks, t) == 255 {
        assert(is_first_max(w.tasks, q, 0));
        lemma_first_max_unique(w.tasks, q, 0);
    }
    if cycle(v).1 != Some(t) {
        assert(k != 0);
        let v2 = cycle(v).0;
        let r = q.remove(k);
        assert(v2.ready == r);
        lemma_live(w, v.ready);
        assert(v2.locks == w.locks && v2.tasks == w.tasks);
        assert forall|x: TaskId| runnable(v2, x) == runnable(w, x) by {
            assert(blocked(v2, x) == blocked(w, x));
        }
        assert forall|j: int| 0 <= j < r.len() implies runnable(v2, #[trigger] r[j]) by {
            if j < k {
                assert(r[j] == q[j]);
            } else {
                assert(r[j] == q[j + 1]);
            }
        }
        lemma_live_all(v2, r);
        assert(r[0] == q[0]);
    }
}

/// Starvation bound: a task at the front of the line of runnable tasks is
/// picked within 255 cycles with no other event; more exactly within
/// `255 - d` cycles when its dynamic priority `d` is below 255, and in the
/// next cycle when it is 255. Aging raises it by one each cycle, and at 255
/// no other entry can precede it.
pub proof fn starvation_bound(v: ExecutorView, t: TaskId)
    requires
        first_in_line(v, t),
    ensures
        exists|c: nat| 1 <= c <= wait_bound(dyn_of(v.tasks, t)) && #[trigger] picked_in_cycle(v, c) == Some(t),
        wait_bound(dyn_of(v.tasks, t)) <= 255,
    decreases 255 - dyn_of(v.tasks, t),
{
    lemma_cycle_step(v, t);
    let d = dyn_of(v.tasks, t);
    if cycle(v).1 == Some(t) {
        assert(picked_in_cycle(v, 1) == Some(t));
    } else {
        let v2 = cycle(v).0;
        assert(d < 254);
        starvation_bound(v2, t);
        let c = choose|c: nat| 1 <= c <= wait_bound(dyn_of(v2.tasks, t)) && #[trigger] picked_in_cycle(v2, c) == Some(t);
        assert(run_cycles(v, c) == run_cycles(v2, (c - 1) as nat));
        assert(picked_in_cycle(v, c + 1) == Some(t));
    }
}

} // verus!
