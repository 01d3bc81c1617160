use msg_bus::non_block_deque::NonBlockDeque;

#[test]
fn fifo_order_is_kept() {
    let mut q: NonBlockDeque<i32> = NonBlockDeque::new(10);
    q.push(1);
    q.push(2);
    q.push(3);
    assert_eq!(q.pop(), Some(1));
    assert_eq!(q.pop(), Some(2));
    assert_eq!(q.pop(), Some(3));
    assert_eq!(q.pop(), None);
}

#[test]
fn pop_on_empty_returns_none() {
    let mut q: NonBlockDeque<u8> = NonBlockDeque::new(10);
    assert_eq!(q.pop(), None);
    assert_eq!(q.pop(), None);
}

#[test]
fn push_pop_interleaved() {
    let mut q: NonBlockDeque<i32> = NonBlockDeque::new(10);
    q.push(1);
    q.push(2);
    assert_eq!(q.pop(), Some(1));
    q.push(3);
    assert_eq!(q.pop(), Some(2));
    assert_eq!(q.pop(), Some(3));
    assert_eq!(q.pop(), None);
}

#[test]
fn many_items_none_lost_or_duplicated() {
    let mut q: NonBlockDeque<usize> = NonBlockDeque::new(10);
    for i in 0..1000 {
        q.push(i);
    }
    let mut collected: Vec<usize> = Vec::new();
    while let Some(i) = q.pop() {
        collected.push(i);
    }
    assert_eq!(collected.len(), 1000);
    for (want, got) in collected.iter().enumerate() {
        assert_eq!(want, *got);
    }
}

#[test]
fn direct_channel_takes_its_timeout_from_the_caller() {
    let channel = msg_bus::channel::InAndOutMessageChannel::new(40);
    assert_eq!(channel.timeout_ms(), 40);
}

#[test]
fn timeout_is_kept() {
    let mut q: NonBlockDeque<i32> = NonBlockDeque::new(25);
    assert_eq!(q.timeout_ms(), 25);
    q.push(7);
    assert_eq!(q.timeout_ms(), 25);
    q.pop();
    assert_eq!(q.timeout_ms(), 25);
}
