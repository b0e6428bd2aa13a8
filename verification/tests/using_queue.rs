use parity::using_queue::UsingQueue;

#[test]
fn push_does_not_use() {
    let mut q: UsingQueue<u8> = UsingQueue::new(2);
    assert_eq!(q.peek_last_ref(), None);
    assert_eq!(q.use_last_ref(), None);
    q.push(1);
    assert_eq!(q.peek_last_ref(), Some(&1));
    assert_eq!(q.take_used_if(|_| true), None);
    q.push(2);
    assert_eq!(q.use_last_ref(), Some(&2));
    assert_eq!(q.use_last_ref(), Some(&2));
    assert_eq!(q.take_used_if(|x| *x == 1), None);
    assert_eq!(q.take_used_if(|_| true), Some(2));
    assert_eq!(q.take_used_if(|_| true), None);
}

#[test]
fn oldest_used_item_leaves_first() {
    let mut q: UsingQueue<u8> = UsingQueue::new(2);
    for i in 1..4 {
        q.push(i);
        q.use_last_ref();
    }
    assert_eq!(q.take_used_if(|x| *x == 1), None);
    assert_eq!(q.take_used_if(|_| true), Some(2));
    assert_eq!(q.peek_last_ref(), Some(&3));
    q.reset();
    assert_eq!(q.peek_last_ref(), None);
}

#[test]
fn queue_that_keeps_nothing_hands_nothing_out() {
    let mut q: UsingQueue<u8> = UsingQueue::new(0);
    q.push(1);
    assert_eq!(q.use_last_ref(), None);
    assert_eq!(q.peek_last_ref(), None);
}

#[test]
fn pending_item_is_dropped_and_used_ones_stay() {
    let mut q: UsingQueue<u8> = UsingQueue::new(2);
    q.drop_pending();
    assert_eq!(q.peek_last_ref(), None);
    q.push(1);
    q.use_last_ref();
    q.push(2);
    q.drop_pending();
    assert_eq!(q.peek_last_ref(), Some(&1));
    q.drop_pending();
    assert_eq!(q.peek_last_ref(), Some(&1));
}

#[test]
fn copy_of_a_used_item_leaves_it_in_use() {
    let mut q: UsingQueue<(u8, u8)> = UsingQueue::new(3);
    q.push((1, 10));
    assert_eq!(q.get_used_if(|_| true), None);
    for item in [(1, 10), (2, 20), (1, 30)] {
        q.push(item);
        q.use_last_ref();
    }
    assert_eq!(q.get_used_if(|x| x.0 == 3), None);
    assert_eq!(q.get_used_if(|x| x.0 == 1), Some((1, 10)));
    assert_eq!(q.get_used_if(|x| x.0 == 1), Some((1, 10)));
    assert_eq!(q.take_used_if(|x| x.0 == 1), Some((1, 10)));
    assert_eq!(q.get_used_if(|x| x.0 == 1), Some((1, 30)));
}
