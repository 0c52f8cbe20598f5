use blog_kernel::task::keyboard::ScancodeStream;

#[test]
fn scancodes_arrive_in_push_order() {
    let mut s = ScancodeStream::new();
    assert_eq!(s.poll_next(), None);
    for b in [0x1E, 0x9E, 0x20, 0xA0] {
        assert!(s.add_scancode(b));
    }
    assert!(s.take_wake());
    let mut seen = Vec::new();
    while let Some(b) = s.poll_next() {
        seen.push(b);
    }
    assert_eq!(seen, vec![0x1E, 0x9E, 0x20, 0xA0]);
}

#[test]
fn push_before_poll_is_seen() {
    let mut s = ScancodeStream::new();
    assert!(s.add_scancode(7));
    assert!(!s.take_wake());
    assert_eq!(s.poll_next(), Some(7));
}

#[test]
fn push_between_pop_and_register_is_seen() {
    let mut s = ScancodeStream::new();
    assert_eq!(s.poll_fast(), None);
    assert!(s.add_scancode(7));
    s.register_waker();
    assert_eq!(s.poll_recheck(), Some(7));
}

#[test]
fn push_between_register_and_recheck_is_seen() {
    let mut s = ScancodeStream::new();
    assert_eq!(s.poll_fast(), None);
    s.register_waker();
    assert!(s.add_scancode(7));
    assert_eq!(s.poll_recheck(), Some(7));
}

#[test]
fn push_after_pending_wakes_consumer() {
    let mut s = ScancodeStream::new();
    assert_eq!(s.poll_next(), None);
    assert!(s.add_scancode(7));
    assert!(s.take_wake());
    assert!(!s.take_wake());
    assert_eq!(s.poll_next(), Some(7));
}

#[test]
fn full_queue_drops_newest() {
    let mut s = ScancodeStream::new();
    for k in 0..100u32 {
        assert!(s.add_scancode(k as u8));
    }
    assert!(!s.add_scancode(200));
    for k in 0..100u32 {
        assert_eq!(s.poll_next(), Some(k as u8));
    }
    assert_eq!(s.poll_next(), None);
}
