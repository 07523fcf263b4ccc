use aprocess::client::{drain_samples, ingest_frame, next_playback_sample};
use aprocess::codec::encode_audio;
use aprocess::ring::RingBuffer;

#[test]
fn ingest_feeds_jitter_buffer_in_order() {
    let mut jb: RingBuffer<u32> = RingBuffer::new(8);
    let frame = encode_audio(&vec![11, 22, 33]);
    assert!(ingest_frame(&mut jb, &frame));
    assert_eq!(jb.try_pop(), Some(11));
    assert_eq!(jb.try_pop(), Some(22));
    assert_eq!(jb.try_pop(), Some(33));
    assert_eq!(jb.try_pop(), None);
}

#[test]
fn ingest_keeps_only_most_recent_on_overflow() {
    let mut jb: RingBuffer<u32> = RingBuffer::new(4);
    let frame = encode_audio(&vec![1, 2, 3, 4, 5, 6]);
    assert!(ingest_frame(&mut jb, &frame));
    // continuity policy: the oldest samples were evicted
    assert_eq!(jb.try_pop(), Some(3));
    assert_eq!(jb.try_pop(), Some(4));
    assert_eq!(jb.try_pop(), Some(5));
    assert_eq!(jb.try_pop(), Some(6));
    assert_eq!(jb.try_pop(), None);
}

#[test]
fn ingest_rejects_ragged_frame_untouched() {
    let mut jb: RingBuffer<u32> = RingBuffer::new(4);
    assert!(ingest_frame(&mut jb, &vec![9, 9, 9, 9]));
    assert!(!ingest_frame(&mut jb, &vec![1, 2, 3]));
    assert_eq!(jb.len(), 1);
}

#[test]
fn playback_substitutes_silence_on_underflow() {
    let mut jb: RingBuffer<u32> = RingBuffer::new(2);
    assert_eq!(next_playback_sample(&mut jb), 0);
    assert!(jb.try_push(42));
    assert_eq!(next_playback_sample(&mut jb), 42);
    assert_eq!(next_playback_sample(&mut jb), 0);
}

#[test]
fn drain_takes_oldest_without_blocking() {
    let mut cb: RingBuffer<u32> = RingBuffer::new(8);
    for s in [1, 2, 3, 4, 5] {
        assert!(cb.try_push(s));
    }
    assert_eq!(drain_samples(&mut cb, 3), vec![1, 2, 3]);
    assert_eq!(drain_samples(&mut cb, 10), vec![4, 5]);
    assert_eq!(drain_samples(&mut cb, 10), Vec::<u32>::new());
}

#[test]
fn capture_to_wire_round_trip() {
    let mut cb: RingBuffer<u32> = RingBuffer::new(8);
    for s in [7, 8, 9] {
        assert!(cb.try_push(s));
    }
    let chunk = drain_samples(&mut cb, 8);
    let wire = encode_audio(&chunk);
    let mut jb: RingBuffer<u32> = RingBuffer::new(8);
    assert!(ingest_frame(&mut jb, &wire));
    assert_eq!(next_playback_sample(&mut jb), 7);
    assert_eq!(next_playback_sample(&mut jb), 8);
    assert_eq!(next_playback_sample(&mut jb), 9);
}
