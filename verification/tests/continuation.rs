use requestr::continuation::CancelGuard;
use requestr::continuation::Continuation;
use requestr::continuation::Delivery;
use requestr::continuation::Disposal;

type Cell = Continuation<u32, String, u64>;

#[test]
fn fresh_continuation_waits() {
    let mut c = Cell::new();
    assert!(!c.is_resolved());
    assert!(!c.is_abandoned());
    assert_eq!(c.poll(), None);
    assert_eq!(c.poll(), None);
}

#[test]
fn delivery_reaches_the_consumer_once() {
    let mut c = Cell::new();
    assert_eq!(c.accept(7), Disposal::Nothing);
    assert_eq!(c.complete(Ok(200)), Delivery::Resolved);
    assert!(c.is_resolved());
    assert_eq!(c.poll(), Some(Ok(200)));
    assert_eq!(c.poll(), None);
    assert!(c.is_resolved());
}

#[test]
fn failure_reaches_the_consumer() {
    let mut c = Cell::new();
    assert_eq!(c.complete(Err("reset".to_string())), Delivery::Resolved);
    assert_eq!(c.poll(), Some(Err("reset".to_string())));
}

#[test]
fn second_delivery_is_discarded() {
    let mut c = Cell::new();
    assert_eq!(c.complete(Ok(1)), Delivery::Resolved);
    assert_eq!(c.complete(Ok(2)), Delivery::Discarded);
    assert_eq!(c.complete(Err("late".to_string())), Delivery::Discarded);
    assert_eq!(c.poll(), Some(Ok(1)));
    assert_eq!(c.complete(Ok(3)), Delivery::Discarded);
    assert_eq!(c.poll(), None);
}

#[test]
fn dropping_an_unresolved_continuation_cancels_once() {
    let mut c = Cell::new();
    assert_eq!(c.accept(7), Disposal::Nothing);
    assert_eq!(c.abandon(), Disposal::Cancel(7));
    assert!(c.is_abandoned());
    assert_eq!(c.abandon(), Disposal::Nothing);
    assert_eq!(c.abandon(), Disposal::Nothing);
}

#[test]
fn delivery_after_cancellation_is_discarded() {
    let mut c = Cell::new();
    c.accept(7);
    assert_eq!(c.abandon(), Disposal::Cancel(7));
    assert_eq!(c.complete(Ok(200)), Delivery::Discarded);
    assert!(!c.is_resolved());
    assert_eq!(c.poll(), None);
    assert_eq!(c.abandon(), Disposal::Nothing);
}

#[test]
fn delivery_before_the_drop_releases_without_cancelling() {
    let mut c = Cell::new();
    c.accept(7);
    assert_eq!(c.complete(Ok(200)), Delivery::Resolved);
    assert_eq!(c.abandon(), Disposal::Release(7));
    assert_eq!(c.poll(), None);
    assert_eq!(c.complete(Ok(201)), Delivery::Discarded);
    assert_eq!(c.abandon(), Disposal::Nothing);
}

#[test]
fn dropping_after_the_result_was_taken_releases() {
    let mut c = Cell::new();
    c.accept(7);
    c.complete(Ok(200));
    assert_eq!(c.poll(), Some(Ok(200)));
    assert_eq!(c.abandon(), Disposal::Release(7));
}

#[test]
fn dropping_without_a_handle_asks_for_nothing() {
    let mut c = Cell::new();
    assert_eq!(c.abandon(), Disposal::Nothing);
    assert_eq!(c.complete(Ok(1)), Delivery::Discarded);
}

#[test]
fn handle_offered_after_the_drop_is_handed_back() {
    let mut c = Cell::new();
    assert_eq!(c.abandon(), Disposal::Nothing);
    assert_eq!(c.accept(9), Disposal::Cancel(9));
    assert_eq!(c.abandon(), Disposal::Nothing);

    let mut done = Cell::new();
    done.complete(Ok(1));
    done.abandon();
    assert_eq!(done.accept(9), Disposal::Release(9));
}

#[test]
fn handle_offered_after_the_result_is_kept_until_the_drop() {
    let mut c = Cell::new();
    assert_eq!(c.complete(Ok(200)), Delivery::Resolved);
    assert_eq!(c.accept(7), Disposal::Nothing);
    assert_eq!(c.poll(), Some(Ok(200)));
    assert_eq!(c.abandon(), Disposal::Release(7));
}

#[test]
fn a_second_handle_takes_the_place_of_the_first() {
    let mut c = Cell::new();
    assert_eq!(c.accept(1), Disposal::Nothing);
    assert_eq!(c.accept(2), Disposal::Cancel(1));
    assert_eq!(c.abandon(), Disposal::Cancel(2));

    let mut done = Cell::new();
    done.accept(1);
    done.complete(Ok(5));
    assert_eq!(done.accept(2), Disposal::Release(1));
    assert_eq!(done.abandon(), Disposal::Release(2));
}

#[test]
fn every_interleaving_of_drop_and_delivery_cancels_and_resolves_at_most_once() {
    // 0: deliver, 1: poll, 2: drop; all sequences of length five
    for code in 0..243u32 {
        let mut c = Cell::new();
        c.accept(7);
        let mut cancels = 0;
        let mut resolutions = 0;
        let mut yields = 0;
        let mut dropped_unresolved = false;
        let mut n = code;
        for step in 0..5 {
            match n % 3 {
                0 => {
                    if c.complete(Ok(step)) == Delivery::Resolved {
                        resolutions += 1;
                    }
                }
                1 => {
                    if c.poll().is_some() {
                        yields += 1;
                    }
                }
                _ => {
                    let first_drop = !c.is_abandoned();
                    let unresolved = !c.is_resolved();
                    match c.abandon() {
                        Disposal::Cancel(handle) => {
                            assert_eq!(handle, 7);
                            assert!(first_drop && unresolved);
                            cancels += 1;
                        }
                        Disposal::Release(handle) => {
                            assert_eq!(handle, 7);
                            assert!(first_drop && !unresolved);
                        }
                        Disposal::Nothing => assert!(!first_drop),
                    }
                    if first_drop && unresolved {
                        dropped_unresolved = true;
                    }
                }
            }
            n /= 3;
        }
        assert!(resolutions <= 1);
        assert!(yields <= resolutions);
        assert_eq!(cancels, if dropped_unresolved { 1 } else { 0 });
        assert!(!(cancels == 1 && resolutions == 1));
    }
}

#[test]
fn guard_lets_go_of_its_handle_once() {
    let mut guard = CancelGuard::new(3u8);
    assert!(guard.is_armed());
    assert_eq!(guard.release(false), Disposal::Cancel(3));
    assert!(!guard.is_armed());
    assert_eq!(guard.release(false), Disposal::Nothing);
    assert_eq!(guard.release(true), Disposal::Nothing);

    let mut completed = CancelGuard::new(4u8);
    assert_eq!(completed.release(true), Disposal::Release(4));
    assert_eq!(completed.release(false), Disposal::Nothing);

    let mut unarmed: CancelGuard<u8> = CancelGuard::unarmed();
    assert!(!unarmed.is_armed());
    assert_eq!(unarmed.release(false), Disposal::Nothing);
}
