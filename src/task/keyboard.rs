//! The keyboard scancode channel: the interrupt handler pushes scancodes
//! into a bounded queue and wakes the consumer; the consumer polls with a
//! protocol that loses no wakeup.
use vstd::prelude::*;
use crossbeam_queue::ArrayQueue;

verus! {

#[verifier::external_type_specification]
#[verifier::external_body]
#[verifier::reject_recursive_types(T)]
pub struct ExArrayQueue<T>(ArrayQueue<T>);

/// The scancodes a queue holds, oldest first.
pub uninterp spec fn queued(q: ArrayQueue<u8>) -> Seq<u8>;

/// The number of scancodes a queue was made to hold.
pub uninterp spec fn queue_capacity(q: ArrayQueue<u8>) -> nat;

/// Relies on `ArrayQueue::new`: an empty queue that holds up to `cap`
/// items; it panics on a capacity of 0 or one too large to index.
#[verifier::external_body]
fn new_queue(cap: usize) -> (r: ArrayQueue<u8>)
    requires
        0 < cap < 0x8000_0000,
    ensures
        queued(r) == Seq::<u8>::empty(),
        queue_capacity(r) == cap,
{
    ArrayQueue::new(cap)
}

/// Relies on `ArrayQueue::push_mut`: appends `v` unless the queue is full,
/// in which case the queue is unchanged. Returns whether `v` was queued.
#[verifier::external_body]
fn push_queue(q: &mut ArrayQueue<u8>, v: u8) -> (r: bool)
    ensures
        queue_capacity(*final(q)) == queue_capacity(*old(q)),
        r == (queued(*old(q)).len() < queue_capacity(*old(q))),
        r ==> queued(*final(q)) == queued(*old(q)).push(v),
        !r ==> queued(*final(q)) == queued(*old(q)),
{
    q.push_mut(v).is_ok()
}

/// Relies on `ArrayQueue::pop_mut`: removes and returns the oldest item,
/// or `None` when the queue is empty.
#[verifier::external_body]
fn pop_queue(q: &mut ArrayQueue<u8>) -> (r: Option<u8>)
    ensures
        queue_capacity(*final(q)) == queue_capacity(*old(q)),
        queued(*old(q)).len() == 0 ==> r is None && queued(*final(q)) == queued(*old(q)),
        queued(*old(q)).len() > 0 ==> r == Some(queued(*old(q))[0]) && queued(*final(q)) == queued(*old(q)).drop_first(),
{
    q.pop_mut()
}

/// Capacity of the scancode queue.
pub const SCANCODE_QUEUE_CAPACITY: usize = 100;

/// What the channel holds: the queued scancodes, the queue's capacity,
/// whether the consumer's waker is registered, and whether a wake was
/// signalled that the executor has not yet taken.
pub struct StreamView {
    pub queued: Seq<u8>,
    pub capacity: nat,
    pub registered: bool,
    pub wake_pending: bool,
}

/// The interrupt handler's push: a scancode that fits is queued and wakes a
/// registered consumer (the waker is taken); one that does not is dropped.
pub open spec fn pushed(v: StreamView, b: u8) -> (StreamView, bool) {
    if v.queued.len() < v.capacity {
        if v.registered {
            (StreamView { queued: v.queued.push(b), registered: false, wake_pending: true, ..v }, true)
        } else {
            (StreamView { queued: v.queued.push(b), ..v }, true)
        }
    } else {
        (v, false)
    }
}

/// Takes the oldest scancode, if any.
pub open spec fn popped(v: StreamView) -> (StreamView, Option<u8>) {
    if v.queued.len() > 0 {
        (StreamView { queued: v.queued.drop_first(), ..v }, Some(v.queued[0]))
    } else {
        (v, None)
    }
}

/// The poll's second step: the consumer registers its waker.
pub open spec fn registered(v: StreamView) -> StreamView {
    StreamView { registered: true, ..v }
}

/// The poll's third step: a second pop; when it finds a scancode the
/// waker is taken back.
pub open spec fn rechecked(v: StreamView) -> (StreamView, Option<u8>) {
    let (w, r) = popped(v);
    if r is Some {
        (StreamView { registered: false, ..w }, r)
    } else {
        (w, r)
    }
}

/// A whole poll: pop; else register and pop again. `None` means pending.
pub open spec fn polled(v: StreamView) -> (StreamView, Option<u8>) {
    let (a, r) = popped(v);
    if r is Some {
        (a, r)
    } else {
        rechecked(registered(a))
    }
}

/// The channel and the poll's result when the interrupt handler pushes `b`
/// at point `pos` of one poll: 0 before it, 1 after the first pop, 2 after
/// registering, 3 after the poll returned.
pub open spec fn interleaved(v: StreamView, b: u8, pos: int) -> (StreamView, Option<u8>) {
    if pos == 0 {
        polled(pushed(v, b).0)
    } else {
        let (a, r) = popped(v);
        if r is Some {
            (pushed(a, b).0, r)
        } else if pos == 1 {
            rechecked(registered(pushed(a, b).0))
        } else if pos == 2 {
            rechecked(pushed(registered(a), b).0)
        } else {
            let (c, r2) = rechecked(registered(a));
            if r2 is Some {
                (pushed(c, b).0, r2)
            } else {
                (pushed(c, b).0, None)
            }
        }
    }
}

/// Lost-wakeup freedom: whichever point of a poll on an empty channel the
/// interrupt handler's push of `b` lands at, either that poll returns `b`,
/// or it returns pending with a wake signalled, and the poll that the wake
/// brings about returns `b`.
pub proof fn lost_wakeup_freedom(v: StreamView, b: u8, pos: int)
    requires
        v.queued.len() == 0,
        v.capacity > 0,
        0 <= pos <= 3,
    ensures
        interleaved(v, b, pos).1 == Some(b) || (interleaved(v, b, pos).0.wake_pending && polled(
            interleaved(v, b, pos).0,
        ).1 == Some(b)),
{
    assert(v.queued.push(b)[0] == b);
    assert(Seq::<u8>::empty().push(b)[0] == b);
}

/// The scancode channel between the keyboard interrupt handler and its one
/// consumer.
pub struct ScancodeStream {
    queue: ArrayQueue<u8>,
    registered: bool,
    wake_pending: bool,
}

impl ScancodeStream {
    pub closed spec fn view(&self) -> StreamView {
        StreamView {
            queued: queued(self.queue),
            capacity: queue_capacity(self.queue),
            registered: self.registered,
            wake_pending: self.wake_pending,
        }
    }

    /// An empty channel holding up to 100 scancodes.
    pub fn new() -> (r: ScancodeStream)
        ensures
            r@ == (StreamView { queued: Seq::empty(), capacity: 100, registered: false, wake_pending: false }),
    {
        ScancodeStream { queue: new_queue(SCANCODE_QUEUE_CAPACITY), registered: false, wake_pending: false }
    }

    /// The interrupt handler's side: queues `scancode` and wakes a registered
    /// consumer. Returns false when the queue is full and the scancode is
    /// dropped.
    pub fn add_scancode(&mut self, scancode: u8) -> (r: bool)
        ensures
            (final(self)@, r) == pushed(old(self)@, scancode),
    {
        if !push_queue(&mut self.queue, scancode) {
            return false;
        }
        if self.registered {
            self.registered = false;
            self.wake_pending = true;
        }
        true
    }

    /// The poll's first step: takes the oldest scancode, if any.
    pub fn poll_fast(&mut self) -> (r: Option<u8>)
        ensures
            (final(self)@, r) == popped(old(self)@),
    {
        pop_queue(&mut self.queue)
    }

    /// The poll's second step: registers the consumer's waker.
    pub fn register_waker(&mut self)
        ensures
            final(self)@ == registered(old(self)@),
    {
        self.registered = true;
    }

    /// The poll's third step: pops again, taking the waker back when a
    /// scancode is there.
    pub fn poll_recheck(&mut self) -> (r: Option<u8>)
        ensures
            (final(self)@, r) == rechecked(old(self)@),
    {
        let r = pop_queue(&mut self.queue);
        if r.is_some() {
            self.registered = false;
        }
        r
    }

    /// One poll of the stream: `Some` with the oldest scancode, or `None`
    /// (pending) with the waker registered.
    pub fn poll_next(&mut self) -> (r: Option<u8>)
        ensures
            (final(self)@, r) == polled(old(self)@),
    {
        if let Some(scancode) = self.poll_fast() {
            return Some(scancode);
        }
        self.register_waker();
        self.poll_recheck()
    }

    /// The executor's side: whether a wake was signalled since the last
    /// call; the signal is cleared.
    pub fn take_wake(&mut self) -> (r: bool)
        ensures
            r == old(self)@.wake_pending,
            final(self)@ == (StreamView { wake_pending: false, ..old(self)@ }),
    {
        let r = self.wake_pending;
        self.wake_pending = false;
        r
    }
}

} // verus!
