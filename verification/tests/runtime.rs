use prolly_s3_core::error::ErrorCode;
use prolly_s3_core::runtime::{system_millis, Clock, FixedClock, IdSource, SequenceIdSource};

#[test]
fn fixed_clock_stands_until_it_is_moved() {
    let mut clock = FixedClock::new(10);
    assert_eq!(clock.now_millis().unwrap(), 10);
    assert_eq!(clock.advance(5).unwrap(), 15);
    assert_eq!(clock.now_millis().unwrap(), 15);
    clock.set(3);
    assert_eq!(clock.now_millis().unwrap(), 3);
}

#[test]
fn fixed_clock_does_not_wrap() {
    let mut clock = FixedClock::new(u64::MAX);
    let error = clock.advance(1).unwrap_err();
    assert_eq!(error.code, ErrorCode::InternalInvariant);
    assert_eq!(error.message, "fixed clock overflow");
    assert_eq!(clock.now_millis().unwrap(), u64::MAX);
}

#[test]
fn system_time_is_checked() {
    assert_eq!(system_millis(Some(7)).unwrap(), 7);
    assert_eq!(
        system_millis(None).unwrap_err().message,
        "system clock precedes epoch"
    );
    assert_eq!(
        system_millis(Some(u64::MAX as u128 + 1)).unwrap_err().message,
        "timestamp overflow"
    );
}

#[test]
fn sequence_names_are_exact_and_distinct() {
    let mut ids = SequenceIdSource::new(1, u64::MAX);
    let first = ids.operation();
    assert_eq!(
        *first.as_bytes(),
        [0, 0, 0, 0, 0, 0, 0, 1, 255, 255, 255, 255, 255, 255, 255, 255]
    );
    let second = ids.workspace();
    assert_eq!(
        *second.as_bytes(),
        [0, 0, 0, 0, 0, 0, 0, 1, 0, 0, 0, 0, 0, 0, 0, 0]
    );
    let third = ids.upload();
    assert_ne!(second.as_bytes(), third.as_bytes());
    assert_eq!(third.as_bytes()[15], 1);
}
