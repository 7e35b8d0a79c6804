use iot_pipeline::clock::millis_since_epoch;
use iot_pipeline::common::current_timestamp_ms;
use iot_pipeline::pipeline::now_ms;

#[test]
fn clock_reads_after_2020() {
    assert!(now_ms().unwrap() > 1_577_836_800_000);
    assert!(current_timestamp_ms().unwrap() > 1_577_836_800_000);
}

#[test]
fn clock_readings_do_not_go_far_back() {
    let a = now_ms().unwrap();
    let b = current_timestamp_ms().unwrap();
    assert!(b + 1000 >= a);
}

#[test]
fn millis_keep_low_64_bits() {
    assert_eq!(millis_since_epoch(Some(1_700_000_000_123)), Some(1_700_000_000_123));
    assert_eq!(millis_since_epoch(Some((1u128 << 64) + 5)), Some(5));
}

#[test]
fn clock_before_epoch_gives_nothing() {
    assert_eq!(millis_since_epoch(None), None);
}
