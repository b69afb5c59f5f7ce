use en_croissant::admission::{Admission, AdmissionController, DEFAULT_CAPACITY};

#[test]
fn default_pool_admits_two_jobs() {
    assert_eq!(DEFAULT_CAPACITY, 2);
    let mut pool = AdmissionController::default();
    assert_eq!(pool.available(), 2);
    assert_eq!(pool.acquire(), Some(Admission::Granted(0)));
    assert_eq!(pool.acquire(), Some(Admission::Granted(1)));
    assert_eq!(pool.acquire(), Some(Admission::Queued(2)));
    assert_eq!(pool.outstanding(), 2);
    assert_eq!(pool.available(), 0);
}

#[test]
fn one_more_than_the_capacity_waits_for_a_release() {
    for capacity in [1usize, 2, 5] {
        let mut pool = AdmissionController::new(capacity);
        for ticket in 0..capacity {
            assert_eq!(pool.acquire(), Some(Admission::Granted(ticket)));
        }
        assert_eq!(pool.acquire(), Some(Admission::Queued(capacity)));
        assert_eq!(pool.outstanding(), capacity);
        assert!(pool.is_waiting(capacity));
        assert!(!pool.is_holding(capacity));
        assert_eq!(pool.release(0), Some(capacity));
        assert!(pool.is_holding(capacity));
        assert!(!pool.is_waiting(capacity));
        assert_eq!(pool.outstanding(), capacity);
    }
}

#[test]
fn waiting_jobs_are_served_in_order() {
    let mut pool = AdmissionController::new(1);
    assert_eq!(pool.acquire(), Some(Admission::Granted(0)));
    assert_eq!(pool.acquire(), Some(Admission::Queued(1)));
    assert_eq!(pool.acquire(), Some(Admission::Queued(2)));
    assert_eq!(pool.acquire(), Some(Admission::Queued(3)));
    assert_eq!(pool.release(0), Some(1));
    assert_eq!(pool.release(1), Some(2));
    assert_eq!(pool.release(2), Some(3));
    assert_eq!(pool.release(3), None);
    assert_eq!(pool.outstanding(), 0);
    assert_eq!(pool.acquire(), Some(Admission::Granted(4)));
}

#[test]
fn cancelled_jobs_leave_the_queue() {
    let mut pool = AdmissionController::new(1);
    pool.acquire();
    pool.acquire();
    pool.acquire();
    assert!(pool.cancel(1));
    assert!(!pool.cancel(1));
    assert!(!pool.cancel(0));
    assert!(pool.is_holding(0));
    assert_eq!(pool.release(0), Some(2));
}

#[test]
fn release_of_a_stranger_changes_nothing() {
    let mut pool = AdmissionController::new(2);
    pool.acquire();
    assert_eq!(pool.release(7), None);
    assert_eq!(pool.outstanding(), 1);
    assert_eq!(pool.release(0), None);
    assert_eq!(pool.release(0), None);
    assert_eq!(pool.outstanding(), 0);
    assert_eq!(pool.available(), 2);
}

#[test]
fn a_pool_without_permits_admits_nobody() {
    let mut pool = AdmissionController::new(0);
    assert_eq!(pool.acquire(), Some(Admission::Queued(0)));
    assert_eq!(pool.outstanding(), 0);
    assert_eq!(pool.release(0), None);
    assert!(pool.is_waiting(0));
}
