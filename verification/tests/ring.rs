use indicatif::ring::{MaxRingBuf, SeekMax};

#[test]
fn test_max_ring_buf() {
    let mut max = MaxRingBuf::<10>::new();
    max.update(100);
    assert_eq!(max.max(), 100);
    for i in 0..10 {
        max.update(99 - i);
    }
    assert_eq!(max.max(), 99);
}

#[test]
fn seek_max_smooths_after_seek() {
    let mut s = SeekMax::<5, 10>::new();
    // Without a seek, positions pass through unchanged.
    assert_eq!(s.update_seq(10, 5), 15);
    // After a seek the largest recent position is shown.
    assert_eq!(s.update_seek(100), 100);
    assert_eq!(s.update_seek(50), 100);
    assert_eq!(s.update_seq(50, 10), 100);
    // After enough sequential moves the history is dropped.
    for _ in 0..4 {
        s.update_seq(60, 1);
    }
    assert_eq!(s.update_seq(60, 1), 61);
}
