use conv_transpose_probe::{allocated, AllocCounter};

fn counter_with(current: usize) -> AllocCounter {
    let mut c = AllocCounter::new();
    allocated(&mut c, current);
    c
}

#[test]
fn new_counter_is_empty() {
    let c = AllocCounter::new();
    assert_eq!(c.current(), 0);
    assert_eq!(c.peak(), 0);
}

#[test]
fn allocated_raises_live_and_peak() {
    let mut c = AllocCounter::new();
    allocated(&mut c, 100);
    assert_eq!((c.current(), c.peak()), (100, 100));
    allocated(&mut c, 28);
    assert_eq!((c.current(), c.peak()), (128, 128));
}

#[test]
fn refused_alloc_is_not_counted() {
    let mut c = counter_with(64);
    c.record_alloc(false, 1000);
    assert_eq!((c.current(), c.peak()), (64, 64));
    c.record_alloc(true, 16);
    assert_eq!((c.current(), c.peak()), (80, 80));
}

#[test]
fn dealloc_lowers_live_but_not_peak() {
    let mut c = counter_with(300);
    c.record_dealloc(120);
    assert_eq!((c.current(), c.peak()), (180, 300));
}

#[test]
fn dealloc_wraps_like_the_atomic() {
    let mut c = counter_with(10);
    c.record_dealloc(11);
    assert_eq!(c.current(), usize::MAX);
    assert_eq!(c.peak(), 10);
}

#[test]
fn realloc_moves_block_size() {
    let mut c = counter_with(100);
    c.record_realloc(true, 100, 250);
    assert_eq!((c.current(), c.peak()), (250, 250));
    c.record_realloc(true, 250, 40);
    assert_eq!((c.current(), c.peak()), (40, 250));
    c.record_realloc(false, 40, 4000);
    assert_eq!((c.current(), c.peak()), (40, 250));
}

#[test]
fn free_undoes_alloc() {
    let mut c = counter_with(500);
    c.record_alloc(true, 77);
    c.record_dealloc(77);
    assert_eq!(c.current(), 500);
    assert!(c.peak() >= 577);
}

#[test]
fn peak_never_drops_over_calls() {
    let mut c = counter_with(10);
    let mut last = c.peak();
    for (kind, a, b) in [(0, 5, 0), (1, 12, 0), (2, 3, 30), (1, 30, 0), (0, 1, 0), (2, 1, 0)] {
        match kind {
            0 => c.record_alloc(true, a),
            1 => c.record_dealloc(a),
            _ => c.record_realloc(true, a, b),
        }
        assert!(c.peak() >= last);
        last = c.peak();
    }
}

#[test]
fn peak_is_highest_live_count() {
    let mut c = AllocCounter::new();
    let mut highest = 0;
    let steps: [(u8, usize, usize); 7] =
        [(0, 40, 0), (0, 60, 0), (1, 40, 0), (2, 60, 90), (0, 5, 0), (1, 95, 0), (0, 20, 0)];
    for (kind, a, b) in steps {
        match kind {
            0 => c.record_alloc(true, a),
            1 => c.record_dealloc(a),
            _ => c.record_realloc(true, a, b),
        }
        highest = highest.max(c.current());
    }
    assert_eq!(highest, 100);
    assert_eq!(c.peak(), highest);
    assert_eq!(c.current(), 20);
}

#[test]
fn measurement_reports_growth_over_baseline() {
    let mut c = counter_with(1000);
    let initial = c.begin_measurement();
    assert_eq!(initial, 1000);
    assert_eq!(c.peak(), 1000);
    c.record_alloc(true, 400);
    c.record_alloc(true, 100);
    c.record_dealloc(500);
    assert_eq!(c.peak_since(initial), 500);
    assert_eq!(c.current(), 1000);
}

#[test]
fn measurement_resets_an_older_peak() {
    let mut c = counter_with(1000);
    c.record_dealloc(900);
    assert_eq!(c.peak(), 1000);
    let initial = c.begin_measurement();
    assert_eq!(initial, 100);
    c.record_alloc(true, 50);
    assert_eq!(c.peak_since(initial), 50);
}

#[test]
fn peak_since_saturates_below_baseline() {
    let c = counter_with(30);
    assert_eq!(c.peak_since(100), 0);
    assert_eq!(c.peak_since(30), 0);
    assert_eq!(c.peak_since(10), 20);
}
