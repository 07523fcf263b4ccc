use aprocess::ring::RingBuffer;

#[test]
fn fifo_order_push_then_pop() {
    let mut rb: RingBuffer<u32> = RingBuffer::new(4);
    assert!(rb.try_push(10));
    assert!(rb.try_push(20));
    assert!(rb.try_push(30));
    assert!(rb.try_push(40));
    assert_eq!(rb.try_pop(), Some(10));
    assert_eq!(rb.try_pop(), Some(20));
    assert_eq!(rb.try_pop(), Some(30));
    assert_eq!(rb.try_pop(), Some(40));
    assert_eq!(rb.try_pop(), None);
}

#[test]
fn fifo_order_across_wrap() {
    let mut rb: RingBuffer<u32> = RingBuffer::new(3);
    assert!(rb.try_push(1));
    assert!(rb.try_push(2));
    assert_eq!(rb.try_pop(), Some(1));
    assert!(rb.try_push(3));
    assert!(rb.try_push(4));
    assert_eq!(rb.try_pop(), Some(2));
    assert_eq!(rb.try_pop(), Some(3));
    assert_eq!(rb.try_pop(), Some(4));
    assert_eq!(rb.try_pop(), None);
}

#[test]
fn push_full_drops_newest() {
    let mut rb: RingBuffer<u32> = RingBuffer::new(2);
    assert!(rb.try_push(1));
    assert!(rb.try_push(2));
    assert!(!rb.try_push(3));
    assert_eq!(rb.len(), 2);
    assert_eq!(rb.try_pop(), Some(1));
    assert_eq!(rb.try_pop(), Some(2));
    assert_eq!(rb.try_pop(), None);
}

#[test]
fn push_evict_drops_oldest() {
    let mut rb: RingBuffer<u32> = RingBuffer::new(3);
    assert_eq!(rb.push_evict(1), None);
    assert_eq!(rb.push_evict(2), None);
    assert_eq!(rb.push_evict(3), None);
    assert_eq!(rb.push_evict(4), Some(1));
    assert_eq!(rb.push_evict(5), Some(2));
    assert_eq!(rb.try_pop(), Some(3));
    assert_eq!(rb.try_pop(), Some(4));
    assert_eq!(rb.try_pop(), Some(5));
    assert_eq!(rb.try_pop(), None);
}

#[test]
fn pop_empty_is_none() {
    let mut rb: RingBuffer<u64> = RingBuffer::new(1);
    assert_eq!(rb.try_pop(), None);
    assert_eq!(rb.len(), 0);
}

#[test]
fn capacity_is_fixed() {
    let mut rb: RingBuffer<u32> = RingBuffer::new(2);
    assert_eq!(rb.capacity(), 2);
    assert!(rb.try_push(7));
    assert!(rb.try_push(8));
    assert!(!rb.try_push(9));
    assert_eq!(rb.capacity(), 2);
    assert_eq!(rb.len(), 2);
}
