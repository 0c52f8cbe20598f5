use blog_kernel::task::executor::Executor;
use blog_kernel::task::lock::LockId;
use blog_kernel::task::pinh::PriLock;
use blog_kernel::task::simple_executor::SimpleExecutor;
use blog_kernel::task::{Task, TaskId};

#[test]
fn spawn_hands_out_increasing_ids() {
    let mut ex = Executor::new();
    assert_eq!(ex.spawn(5), TaskId(0));
    assert_eq!(ex.spawn(5), TaskId(1));
    assert!(ex.has_task(TaskId(1)));
    assert!(!ex.has_task(TaskId(2)));
    assert_eq!(ex.dyn_priority(TaskId(0)), 5);
}

#[test]
fn higher_priority_polls_first() {
    let mut ex = Executor::new();
    let b = ex.spawn(10);
    let a = ex.spawn(200);
    assert_eq!(ex.schedule(), Some(a));
    assert_eq!(ex.schedule(), Some(b));
    assert_eq!(ex.schedule(), None);
    assert!(ex.is_idle());
}

#[test]
fn equal_priorities_run_in_insertion_order() {
    let mut ex = Executor::new();
    let x = ex.spawn(7);
    let y = ex.spawn(7);
    assert_eq!(ex.schedule(), Some(x));
    assert_eq!(ex.schedule(), Some(y));
}

#[test]
fn aging_saturates_at_255() {
    let mut ex = Executor::new();
    let t = ex.spawn(253);
    ex.age_tasks();
    assert_eq!(ex.dyn_priority(t), 254);
    ex.age_tasks();
    ex.age_tasks();
    assert_eq!(ex.dyn_priority(t), 255);
}

#[test]
fn starved_task_runs_within_255_cycles() {
    let mut ex = Executor::new();
    let low = ex.spawn(0);
    let high = ex.spawn(250);
    let mut cycles = 0;
    loop {
        cycles += 1;
        let t = ex.schedule().expect("something is ready");
        if t == low {
            break;
        }
        assert_eq!(t, high);
        ex.wake(high);
        assert!(cycles < 300);
    }
    assert!(cycles <= 255);
    assert_eq!(cycles, 255);
}

#[test]
fn completed_task_entries_are_skipped() {
    let mut ex = Executor::new();
    let a = ex.spawn(1);
    let b = ex.spawn(2);
    ex.wake(a);
    ex.complete(a);
    assert!(!ex.has_task(a));
    assert_eq!(ex.schedule(), Some(b));
    assert_eq!(ex.schedule(), None);
}

#[test]
fn lock_acquire_free_then_contended() {
    let mut ex = Executor::new();
    let low = ex.spawn(10);
    let high = ex.spawn(200);
    let x = ex.create_lock();
    assert_eq!(x, LockId(0));
    assert!(ex.acquire(low, x));
    assert!(ex.acquire(low, x));
    assert!(!ex.acquire(high, x));
    assert!(ex.is_blocked(high));
    assert!(ex.dyn_priority(low) >= 200);
    ex.release(low, x);
    assert_eq!(ex.dyn_priority(low), 10);
    assert!(!ex.is_blocked(high));
}

#[test]
fn release_keeps_boost_from_other_held_lock() {
    let mut ex = Executor::new();
    let low = ex.spawn(10);
    let mid = ex.spawn(60);
    let high = ex.spawn(200);
    let x = ex.create_lock();
    let y = ex.create_lock();
    assert!(ex.acquire(low, x));
    assert!(ex.acquire(low, y));
    assert!(!ex.acquire(mid, y));
    assert!(!ex.acquire(high, x));
    assert_eq!(ex.dyn_priority(low), 200);
    ex.release(low, x);
    assert_eq!(ex.dyn_priority(low), 60);
    ex.release(low, y);
    assert_eq!(ex.dyn_priority(low), 10);
}

#[test]
fn release_hands_lock_to_highest_waiter_fifo_among_equals() {
    let mut ex = Executor::new();
    let owner = ex.spawn(1);
    let w1 = ex.spawn(50);
    let w2 = ex.spawn(90);
    let w3 = ex.spawn(90);
    let x = ex.create_lock();
    assert!(ex.acquire(owner, x));
    assert!(!ex.acquire(w1, x));
    assert!(!ex.acquire(w2, x));
    assert!(!ex.acquire(w3, x));
    ex.release(owner, x);
    assert!(!ex.is_blocked(w2));
    assert!(ex.is_blocked(w3));
    assert!(ex.is_blocked(w1));
    ex.release(w2, x);
    assert!(!ex.is_blocked(w3));
    assert!(ex.is_blocked(w1));
}

#[test]
fn priority_inversion_avoided() {
    let mut ex = Executor::new();
    let l = ex.spawn(10);
    assert_eq!(ex.schedule(), Some(l));
    let x = ex.create_lock();
    assert!(ex.acquire(l, x));
    let h = ex.spawn(200);
    assert_eq!(ex.schedule(), Some(h));
    assert!(!ex.acquire(h, x));
    assert!(ex.dyn_priority(l) >= 200);
    let m = ex.spawn(50);
    assert_eq!(ex.schedule(), Some(l));
    ex.release(l, x);
    assert_eq!(ex.schedule(), Some(h));
    ex.complete(h);
    let next = ex.schedule();
    assert_eq!(next, Some(m));
}

#[test]
fn completing_owner_passes_its_locks_on() {
    let mut ex = Executor::new();
    let a = ex.spawn(5);
    let b = ex.spawn(5);
    let x = ex.create_lock();
    assert!(ex.acquire(a, x));
    assert!(!ex.acquire(b, x));
    ex.complete(a);
    assert!(!ex.is_blocked(b));
    assert!(ex.acquire(b, x));
}

#[test]
fn prilock_methods() {
    let mut next_id: u64 = 1;
    let low = Task::new(&mut next_id, 10);
    let high = Task::new(&mut next_id, 200);
    assert_eq!(next_id, 3);
    assert_eq!((low.id, high.id), (TaskId(1), TaskId(2)));
    let mut tasks = vec![low, high];
    let mut lock = PriLock::new(LockId(4));
    assert_eq!(lock.owner(), None);
    assert!(lock.lock_acquire(&mut tasks, TaskId(1)));
    assert_eq!(lock.owner(), Some(TaskId(1)));
    assert_eq!(tasks[0].meta.locks_held, vec![LockId(4)]);
    assert!(!lock.lock_acquire(&mut tasks, TaskId(2)));
    assert!(lock.has_waiter(TaskId(2)));
    assert_eq!(tasks[0].meta.dyn_priority, 200);
    assert_eq!(lock.max_waiter_priority(&tasks), 200);
    assert_eq!(lock.lock_release(&mut tasks, 10), Some(TaskId(2)));
    assert_eq!(tasks[0].meta.dyn_priority, 10);
    assert!(tasks[0].meta.locks_held.is_empty());
    assert_eq!(tasks[1].meta.locks_held, vec![LockId(4)]);
    lock.set_owner(TaskId(1));
    lock.add_waiter(TaskId(2));
    lock.propagate_priority(&mut tasks, TaskId(2));
    assert_eq!(tasks[0].meta.dyn_priority, 200);
    assert_eq!(lock.id(), LockId(4));
}

#[test]
fn simple_executor_is_fifo() {
    let mut ex = SimpleExecutor::new();
    assert!(ex.is_empty());
    ex.spawn(TaskId(3));
    ex.spawn(TaskId(1));
    assert_eq!(ex.next_task(), Some(TaskId(3)));
    ex.spawn(TaskId(3));
    assert_eq!(ex.next_task(), Some(TaskId(1)));
    assert_eq!(ex.next_task(), Some(TaskId(3)));
    assert_eq!(ex.next_task(), None);
}
