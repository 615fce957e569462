//! The escrow custody gate: deposit, the unlock condition, withdraw.

use record_store::error::StoreError;
use record_store::escrow::Escrow;

fn tag() -> Vec<u8> {
    vec![9u8; 32]
}

fn owner() -> Vec<u8> {
    vec![4u8; 32]
}

fn gate() -> Escrow {
    Escrow::new(tag(), 1).unwrap()
}

#[test]
fn escrow_reserve_covers_the_fixed_record() {
    // discriminator 8 + owner 32 + one scalar 8, at one unit per byte
    assert_eq!(gate().reserve(), 48);
}

#[test]
fn deposit_records_price_and_custodies_funds() {
    let mut gate = gate();
    let reserve = gate.reserve();
    let (addr, change) = gate.deposit(&owner(), 1000, 25, 2000).unwrap();
    assert_eq!(addr.len(), 32);
    assert_eq!(change, 2000 - reserve - 1000);
    assert_eq!(gate.escrow_of(&owner()), Some((25, 1000)));
}

#[test]
fn deposit_fails_atomically_on_insufficient_funds() {
    let mut gate = gate();
    let reserve = gate.reserve();
    let r = gate.deposit(&owner(), 1000, 25, reserve + 999);
    assert_eq!(r, Err(StoreError::InsufficientFunds));
    // no half-initialized record is left behind
    assert_eq!(gate.escrow_of(&owner()), None);
}

#[test]
fn deposit_twice_fails() {
    let mut gate = gate();
    gate.deposit(&owner(), 1000, 25, 2000).unwrap();
    let r = gate.deposit(&owner(), 500, 10, 2000);
    assert_eq!(r, Err(StoreError::AlreadyExists));
    assert_eq!(gate.escrow_of(&owner()), Some((25, 1000)));
}

#[test]
fn withdraw_below_the_threshold_keeps_custody() {
    let mut gate = gate();
    gate.deposit(&owner(), 1000, 25, 2000).unwrap();
    let r = gate.withdraw(&owner(), 20);
    assert_eq!(r, Err(StoreError::ConditionNotMet));
    // the funds remain custodied and the record stays funded
    assert_eq!(gate.escrow_of(&owner()), Some((25, 1000)));
}

#[test]
fn withdraw_at_or_above_the_threshold_pays_out() {
    let mut gate = gate();
    let reserve = gate.reserve();
    gate.deposit(&owner(), 1000, 25, 2000).unwrap();
    let payout = gate.withdraw(&owner(), 30).unwrap();
    // the escrow amount plus the reclaimed reserve comes back
    assert_eq!(payout, 1000 + reserve);
    assert_eq!(gate.escrow_of(&owner()), None);
    // a withdraw succeeds at most once
    assert_eq!(gate.withdraw(&owner(), 30), Err(StoreError::NotFound));
}

#[test]
fn withdraw_exactly_at_the_threshold_releases() {
    let mut gate = gate();
    let reserve = gate.reserve();
    gate.deposit(&owner(), 7, 25, 100).unwrap();
    assert_eq!(gate.withdraw(&owner(), 25), Ok(7 + reserve));
}

#[test]
fn withdraw_without_a_deposit_fails() {
    let mut gate = gate();
    assert_eq!(gate.withdraw(&owner(), 1000), Err(StoreError::NotFound));
}

#[test]
fn deposit_again_after_withdraw_succeeds() {
    let mut gate = gate();
    gate.deposit(&owner(), 1000, 25, 2000).unwrap();
    gate.withdraw(&owner(), 30).unwrap();
    gate.deposit(&owner(), 300, 40, 2000).unwrap();
    assert_eq!(gate.escrow_of(&owner()), Some((40, 300)));
}

#[test]
fn custody_works_at_fixed_point_scale() {
    // prices carried as hundredths of a unit: 25.00 to unlock,
    // quoted at 20.00 and then 30.00
    let mut gate = gate();
    let reserve = gate.reserve();
    gate.deposit(&owner(), 1000, 2500, 5000).unwrap();
    assert_eq!(gate.withdraw(&owner(), 2000), Err(StoreError::ConditionNotMet));
    assert_eq!(gate.escrow_of(&owner()), Some((2500, 1000)));
    assert_eq!(gate.withdraw(&owner(), 3000), Ok(1000 + reserve));
    assert_eq!(gate.escrow_of(&owner()), None);
}

#[test]
fn escrows_of_two_owners_are_independent(){
    let mut gate = gate();
    let other: Vec<u8> = vec![5u8; 32];
    gate.deposit(&owner(), 1000, 25, 2000).unwrap();
    gate.deposit(&other, 600, 30, 2000).unwrap();
    assert_eq!(gate.escrow_of(&owner()), Some((25, 1000)));
    assert_eq!(gate.escrow_of(&other), Some((30, 600)));
    gate.withdraw(&owner(), 26).unwrap();
    assert_eq!(gate.escrow_of(&owner()), None);
    assert_eq!(gate.escrow_of(&other), Some((30, 600)));
}
