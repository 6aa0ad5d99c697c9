//! The ring buffer.

use logtui::buffer::RingBuffer;

#[test]
fn evicts_oldest_and_keeps_abs_numbers_stable() {
    let mut b = RingBuffer::new(3);
    assert_eq!(b.push("a".into()), 0);
    assert_eq!(b.push("b".into()), 1);
    assert_eq!(b.push("c".into()), 2);
    assert_eq!(b.push("d".into()), 3); // evicts "a"
    assert_eq!(b.len(), 3);
    assert_eq!(b.dropped(), 1);
    assert_eq!(b.get_abs(0), None);
    assert_eq!(b.get_abs(1), Some("b"));
    assert_eq!(b.get_abs(3), Some("d"));
    let collected: Vec<_> = b.iter_abs().into_iter().collect();
    assert_eq!(collected, vec![(1, "b"), (2, "c"), (3, "d")]);
}

#[test]
fn empty_ring_holds_nothing() {
    let b = RingBuffer::new(5);
    assert_eq!(b.len(), 0);
    assert_eq!(b.dropped(), 0);
    assert_eq!(b.get_abs(0), None);
    assert!(b.iter_abs().is_empty());
}

#[test]
fn ring_of_one_keeps_the_newest() {
    let mut b = RingBuffer::new(1);
    for i in 0..100u64 {
        assert_eq!(b.push(format!("line {i}")), i);
        assert_eq!(b.len(), 1);
        assert_eq!(b.dropped(), i);
        assert_eq!(b.get_abs(i), Some(format!("line {i}").as_str()));
        assert_eq!(b.get_abs(i + 1), None);
        if i > 0 {
            assert_eq!(b.get_abs(i - 1), None);
        }
    }
}

#[test]
fn ring_is_bounded_and_numbers_survive_eviction() {
    let mut b = RingBuffer::new(7);
    for i in 0..50u64 {
        b.push(format!("{i}"));
        let held = if i + 1 < 7 { i + 1 } else { 7 };
        assert_eq!(b.len() as u64, held);
        assert_eq!(b.dropped() + held, i + 1);
        for abs in b.dropped()..=i {
            assert_eq!(b.get_abs(abs), Some(format!("{abs}").as_str()));
        }
    }
    // A capacity beyond what is reserved at once is no limit on the numbers.
    let mut wide = RingBuffer::new(usize::MAX);
    assert_eq!(wide.push("x".into()), 0);
    assert_eq!(wide.dropped(), 0);
}
