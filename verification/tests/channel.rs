use spmc_ring::bounded;
use spmc_ring::capacity_is_valid;
use spmc_ring::next_index;
use spmc_ring::CapacityError;

#[test]
fn fifo_order() {
    let (mut tx, mut rx) = bounded::<u32>(5).unwrap();
    assert_eq!(tx.try_send(&mut rx, 1), Ok(()));
    assert_eq!(tx.try_send(&mut rx, 2), Ok(()));
    assert_eq!(tx.try_send(&mut rx, 3), Ok(()));
    assert_eq!(rx.try_recv(&tx), Some(1));
    assert_eq!(rx.try_recv(&tx), Some(2));
    assert_eq!(rx.try_recv(&tx), Some(3));
    assert_eq!(rx.try_recv(&tx), None);
}

#[test]
fn effective_capacity() {
    let (mut tx, mut rx) = bounded::<u32>(4).unwrap();
    assert_eq!(tx.try_send(&mut rx, 10), Ok(()));
    assert_eq!(tx.try_send(&mut rx, 20), Ok(()));
    assert_eq!(tx.try_send(&mut rx, 30), Ok(()));
    assert_eq!(tx.try_send(&mut rx, 40), Err(40));
    assert_eq!(rx.try_recv(&tx), Some(10));
    assert_eq!(tx.try_send(&mut rx, 50), Ok(()));
    assert_eq!(tx.try_send(&mut rx, 60), Err(60));
}

#[test]
fn round_trip() {
    let (mut tx, mut rx) = bounded::<i64>(2).unwrap();
    assert_eq!(tx.try_send(&mut rx, -37), Ok(()));
    assert_eq!(rx.try_recv(&tx), Some(-37));
    assert_eq!(rx.try_recv(&tx), None);
}

#[test]
fn rejected_send_returns_value_unharmed() {
    let (mut tx, mut rx) = bounded::<String>(2).unwrap();
    assert_eq!(tx.try_send(&mut rx, String::from("kept")), Ok(()));
    let back = tx.try_send(&mut rx, String::from("bounced"));
    assert_eq!(back, Err(String::from("bounced")));
    assert_eq!(rx.try_recv(&tx), Some(String::from("kept")));
}

#[test]
fn empty_channel_reports_none() {
    let (tx, mut rx) = bounded::<u8>(3).unwrap();
    assert_eq!(rx.try_recv(&tx), None);
    assert_eq!(rx.try_recv(&tx), None);
}

#[test]
fn boundary_capacity_zero_rejected() {
    let result = bounded::<u32>(0);
    assert_eq!(result.err().map(|e| e.requested), Some(0));
}

#[test]
fn boundary_capacity_one_rejected() {
    let result = bounded::<u32>(1);
    assert_eq!(result.err().map(|e| e.requested), Some(1));
}

#[test]
fn smallest_valid_capacity() {
    let (mut tx, mut rx) = bounded::<u32>(2).unwrap();
    assert_eq!(tx.try_send(&mut rx, 5), Ok(()));
    assert_eq!(tx.try_send(&mut rx, 6), Err(6));
    assert_eq!(rx.try_recv(&tx), Some(5));
    assert_eq!(rx.try_recv(&tx), None);
}

#[test]
fn cursors_wrap_around_the_ring() {
    let (mut tx, mut rx) = bounded::<u32>(3).unwrap();
    for round in 0..10u32 {
        assert_eq!(tx.try_send(&mut rx, round), Ok(()));
        assert_eq!(tx.try_send(&mut rx, 100 + round), Ok(()));
        assert_eq!(rx.try_recv(&tx), Some(round));
        assert_eq!(rx.try_recv(&tx), Some(100 + round));
        assert_eq!(rx.try_recv(&tx), None);
    }
}

#[test]
fn capacity_validity_matches_factory() {
    assert!(!capacity_is_valid(0));
    assert!(!capacity_is_valid(1));
    assert!(capacity_is_valid(2));
    assert!(capacity_is_valid(64));
    assert!(bounded::<u32>(0).is_err());
    assert!(bounded::<u32>(64).is_ok());
}

#[test]
fn capacity_error_reports_the_request() {
    assert_eq!(bounded::<u32>(1).err(), Some(CapacityError { requested: 1 }));
    assert_ne!(bounded::<u32>(0).err(), Some(CapacityError { requested: 1 }));
}

#[test]
fn next_index_wraps_at_capacity() {
    assert_eq!(next_index(0, 4), 1);
    assert_eq!(next_index(2, 4), 3);
    assert_eq!(next_index(3, 4), 0);
    assert_eq!(next_index(0, 2), 1);
    assert_eq!(next_index(1, 2), 0);
}

#[test]
fn values_that_are_not_copy() {
    let (mut tx, mut rx) = bounded::<Vec<u64>>(3).unwrap();
    assert_eq!(tx.try_send(&mut rx, vec![1, 2, 3]), Ok(()));
    assert_eq!(tx.try_send(&mut rx, vec![]), Ok(()));
    assert_eq!(rx.try_recv(&tx), Some(vec![1, 2, 3]));
    assert_eq!(rx.try_recv(&tx), Some(vec![]));
    assert_eq!(rx.try_recv(&tx), None);
}
