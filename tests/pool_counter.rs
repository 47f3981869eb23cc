use threaded::pool::PoolCounter;

#[test]
fn counts_jobs_up_to_capacity() {
    let mut c = PoolCounter::new(2);
    assert_eq!(c.capacity(), 2);
    assert!(c.is_idle());
    assert!(c.begin());
    assert!(c.begin());
    assert!(!c.begin());
    assert_eq!(c.active(), 2);
    assert!(!c.is_idle());
}

#[test]
fn last_finish_signals_idle() {
    let mut c = PoolCounter::new(3);
    c.begin();
    c.begin();
    c.begin();
    assert!(!c.finish());
    assert!(!c.finish());
    assert!(c.finish());
    assert!(c.is_idle());
    assert_eq!(c.active(), 0);
}

#[test]
fn interleaved_jobs_signal_each_time_the_pool_empties() {
    let mut c = PoolCounter::new(1);
    let mut signals = 0;
    for _ in 0..5 {
        assert!(c.begin());
        assert!(!c.begin());
        if c.finish() {
            signals += 1;
        }
    }
    assert_eq!(signals, 5);
    assert!(c.is_idle());
}

#[test]
fn zero_workers_take_no_job() {
    let mut c = PoolCounter::new(0);
    assert!(!c.begin());
    assert!(c.is_idle());
}
