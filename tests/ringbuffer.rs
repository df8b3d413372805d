use polysynth::RingBuffer;

#[test]
fn overflow_keeps_newest_and_caps_length() {
    let mut b: RingBuffer<u32> = RingBuffer::with_size(4);
    for v in 1..=5u32 {
        b.push(v);
    }
    assert_eq!(b.get(0), Some(&5));
    assert_eq!(b.len(), 4);
    assert_eq!(b.get(3), Some(&2));
    assert_eq!(b.get(4), None);
}

#[test]
fn full_buffer_reads_in_reverse_push_order() {
    let mut b: RingBuffer<i64> = RingBuffer::with_size(3);
    b.push(10);
    b.push(20);
    b.push(30);
    assert_eq!(b.get(0), Some(&30));
    assert_eq!(b.get(1), Some(&20));
    assert_eq!(b.get(2), Some(&10));
    assert_eq!(b.len(), 3);
}

#[test]
fn empty_buffer_has_nothing() {
    let b: RingBuffer<u8> = RingBuffer::with_size(8);
    assert_eq!(b.len(), 0);
    assert_eq!(b.get(0), None);
    assert_eq!(b.capacity(), 8);
}

#[test]
fn capacity_one_keeps_last() {
    let mut b: RingBuffer<u8> = RingBuffer::with_size(1);
    b.push(1);
    b.push(2);
    assert_eq!(b.len(), 1);
    assert_eq!(b.get(0), Some(&2));
    assert_eq!(b.get(1), None);
}

#[test]
fn long_run_keeps_window() {
    let mut b: RingBuffer<u32> = RingBuffer::with_size(16);
    for v in 0..1000u32 {
        b.push(v);
    }
    for i in 0..16usize {
        assert_eq!(b.get(i), Some(&(999 - i as u32)));
    }
    assert_eq!(b.get(16), None);
}
