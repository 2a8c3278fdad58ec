use smoothie::semaphore::AdaptiveSemaphore;

#[test]
fn acquire_within_ceiling() {
    let mut sem = AdaptiveSemaphore::new();
    assert!(sem.try_acquire(3));
    assert!(sem.try_acquire(3));
    assert!(sem.try_acquire(3));
    assert!(!sem.try_acquire(3), "should reject at ceiling");
    assert_eq!(sem.active(), 3);
}

#[test]
fn release_frees_slot() {
    let mut sem = AdaptiveSemaphore::new();
    assert!(sem.try_acquire(1));
    assert!(!sem.try_acquire(1));
    sem.release();
    assert_eq!(sem.active(), 0);
    assert!(sem.try_acquire(1), "should succeed after release");
}

#[test]
fn ceiling_zero_rejects_all() {
    let mut sem = AdaptiveSemaphore::new();
    assert!(!sem.try_acquire(0));
}

#[test]
fn dynamic_ceiling_reduction() {
    let mut sem = AdaptiveSemaphore::new();
    // Acquire 3 slots with ceiling=5.
    assert!(sem.try_acquire(5));
    assert!(sem.try_acquire(5));
    assert!(sem.try_acquire(5));

    // Reduce ceiling to 2: existing 3 streams stay, but new ones are blocked.
    assert!(!sem.try_acquire(2));
    assert_eq!(sem.active(), 3);

    // Release one, still at 2 which equals the new ceiling.
    sem.release();
    assert!(!sem.try_acquire(2), "still at ceiling after one release");

    sem.release();
    assert!(sem.try_acquire(2), "should succeed after dropping below ceiling");
}

#[test]
fn release_without_a_stream_wraps() {
    let mut sem = AdaptiveSemaphore::new();
    sem.release();
    assert_eq!(sem.active(), u32::MAX);
}

#[test]
fn attempts_fill_up_to_the_ceiling() {
    let mut sem = AdaptiveSemaphore::new();
    let mut admitted = 0;
    for _ in 0..10 {
        if sem.try_acquire(4) {
            admitted += 1;
        }
    }
    assert_eq!(admitted, 4);
    assert_eq!(sem.active(), 4);
}

#[test]
fn the_count_is_admissions_less_releases() {
    let mut sem = AdaptiveSemaphore::new();
    let mut held: u32 = 0;
    for round in 0u32..200 {
        if round % 3 == 2 && held > 0 {
            sem.release();
            held -= 1;
        } else if sem.try_acquire(round % 7) {
            held += 1;
        }
        assert_eq!(sem.active(), held);
    }
}
