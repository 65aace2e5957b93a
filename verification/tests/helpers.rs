use keccak_merkle::account::{account_body, zero_account_body, DISCRIMINATOR_LEN};
use keccak_merkle::clock::{next_warp, timestamp_after, WarpStep, WARP_STRIDE};

#[test]
fn zero_account_body_skips_the_discriminator() {
    let data: Vec<u8> = (0u8..20).collect();
    assert_eq!(DISCRIMINATOR_LEN, 8);
    assert_eq!(zero_account_body(&data, 4), Some(&[8u8, 9, 10, 11][..]));
    assert_eq!(zero_account_body(&data, 12), Some(&data[8..]));
    assert_eq!(zero_account_body(&data, 0), Some(&[0u8; 0][..]));
}

#[test]
fn zero_account_body_needs_all_its_bytes() {
    let data: Vec<u8> = (0u8..20).collect();
    assert_eq!(zero_account_body(&data, 13), None);
    assert_eq!(zero_account_body(&data, usize::MAX), None);
    assert_eq!(zero_account_body(&data[..7], 0), None);
    assert_eq!(zero_account_body(&[], 0), None);
}

#[test]
fn account_body_is_all_after_the_discriminator() {
    let data: Vec<u8> = (0u8..11).collect();
    assert_eq!(account_body(data), Some(vec![8u8, 9, 10]));
    assert_eq!(account_body(vec![7u8; 8]), Some(Vec::new()));
    assert_eq!(account_body(vec![7u8; 7]), None);
    assert_eq!(account_body(Vec::new()), None);
}

#[test]
fn next_warp_stops_once_the_clock_has_passed() {
    assert_eq!(WARP_STRIDE, 400);
    assert_eq!(next_warp(100, 7, 100, 1), WarpStep::WarpTo(407));
    assert_eq!(next_warp(99, 7, 100, 3), WarpStep::WarpTo(1207));
    assert_eq!(next_warp(101, 7, 100, 1), WarpStep::Done);
    assert_eq!(next_warp(-5, 0, -5, 2), WarpStep::WarpTo(800));
    assert_eq!(next_warp(i64::MIN, u64::MAX - 400, i64::MAX, 1), WarpStep::WarpTo(u64::MAX));
}

#[test]
fn next_warp_reports_a_slot_beyond_the_last() {
    assert_eq!(next_warp(0, u64::MAX - 399, 0, 1), WarpStep::SlotOverflow);
    assert_eq!(next_warp(0, 0, 0, u64::MAX), WarpStep::SlotOverflow);
    assert_eq!(next_warp(1, u64::MAX, 0, u64::MAX), WarpStep::Done);
}

#[test]
fn timestamp_after_adds_the_span() {
    assert_eq!(timestamp_after(1_000, 60), Some(1_060));
    assert_eq!(timestamp_after(-10, 10), Some(0));
    assert_eq!(timestamp_after(0, i64::MAX as u64), Some(i64::MAX));
    assert_eq!(timestamp_after(5, u64::MAX), Some(4));
    assert_eq!(timestamp_after(0, 1u64 << 63), Some(i64::MIN));
    assert_eq!(timestamp_after(i64::MAX, (1u64 << 63) + 1), Some(0));
}

#[test]
fn timestamp_after_is_absent_out_of_range() {
    assert_eq!(timestamp_after(1, i64::MAX as u64), None);
    assert_eq!(timestamp_after(-1, 1u64 << 63), None);
    assert_eq!(timestamp_after(i64::MIN, u64::MAX), None);
}
