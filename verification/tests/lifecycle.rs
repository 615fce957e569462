//! The record lifecycle: derivation, validation, create / update / delete.

use record_store::address::derive_address;
use record_store::error::{StoreError, ValidationError};
use record_store::shape::{max_size, validate, Payload, ScalarField, Shape};
use record_store::store::Ledger;

fn tag() -> Vec<u8> {
    vec![7u8; 32]
}

fn owner_a() -> Vec<u8> {
    vec![1u8; 32]
}

fn owner_b() -> Vec<u8> {
    vec![2u8; 32]
}

/// A review record: a title of at most 20 bytes, a description of at most
/// 50 bytes, and a rating in 1..=5.
fn review_shape() -> Shape {
    Shape {
        text_maxes: vec![20, 50],
        scalars: vec![ScalarField { min: 1, max: 5, width: 1 }],
    }
}

fn review_ledger() -> Ledger {
    Ledger::new(review_shape(), tag(), 1).unwrap()
}

fn review(title: &str, description: &str, rating: u64) -> Payload {
    Payload {
        texts: vec![title.as_bytes().to_vec(), description.as_bytes().to_vec()],
        scalars: vec![rating],
    }
}

#[test]
fn derivation_is_deterministic() {
    let key = b"some title".to_vec();
    let first = derive_address(&key, &owner_a(), &tag()).unwrap();
    let second = derive_address(&key, &owner_a(), &tag()).unwrap();
    assert_eq!(first, second);
}

#[test]
fn derivation_returns_a_real_address() {
    let key = b"abc".to_vec();
    let (addr, _nonce) = derive_address(&key, &owner_a(), &tag()).unwrap();
    assert_eq!(addr.len(), 32);
    assert_ne!(addr, key);
    assert_ne!(addr, owner_a());
}

#[test]
fn derivation_separates_owners_and_keys() {
    let key = b"same title".to_vec();
    let (for_a, _) = derive_address(&key, &owner_a(), &tag()).unwrap();
    let (for_b, _) = derive_address(&key, &owner_b(), &tag()).unwrap();
    assert_ne!(for_a, for_b);
    let (other_key, _) = derive_address(&b"other title".to_vec(), &owner_a(), &tag()).unwrap();
    assert_ne!(for_a, other_key);
}

#[test]
fn max_size_counts_the_declared_maxima() {
    // discriminator 8 + owner 32 + one-byte rating + (4 + 20) + (4 + 50)
    assert_eq!(max_size(&review_shape()), Some(119));
}

#[test]
fn create_stores_the_record_and_returns_change() {
    let mut ledger = review_ledger();
    let reserve = ledger.reserve();
    assert_eq!(reserve, 119);
    let key = b"dune".to_vec();
    let (addr, change) = ledger
        .create(&key, &owner_a(), review("dune", "great sand", 5), 1000)
        .unwrap();
    assert_eq!(addr.len(), 32);
    assert_eq!(change, 1000 - reserve);
    let entry = ledger.get(&key, &owner_a()).unwrap();
    assert_eq!(entry.owner, owner_a());
    assert_eq!(entry.natural_key, key);
    assert_eq!(entry.texts[0], b"dune".to_vec());
    assert_eq!(entry.texts[1], b"great sand".to_vec());
    assert_eq!(entry.scalars[0], 5);
    assert_eq!(entry.lamports, reserve);
    // discriminator 8 + owner 32 + one-byte rating + (4 + 4) + (4 + 10)
    assert_eq!(entry.storage_size, 63);
}

#[test]
fn get_distinguishes_keys() {
    let mut ledger = review_ledger();
    ledger
        .create(&b"dune".to_vec(), &owner_a(), review("dune", "d", 3), 1000)
        .unwrap();
    assert!(ledger.get(&b"tron".to_vec(), &owner_a()).is_none());
    assert!(ledger.get(&b"dune".to_vec(), &owner_b()).is_none());
    assert!(ledger.get(&b"dune".to_vec(), &owner_a()).is_some());
}

#[test]
fn no_double_create() {
    let mut ledger = review_ledger();
    let key = b"dune".to_vec();
    ledger
        .create(&key, &owner_a(), review("dune", "first", 4), 1000)
        .unwrap();
    let again = ledger.create(&key, &owner_a(), review("dune", "second", 1), 1000);
    assert_eq!(again, Err(StoreError::AlreadyExists));
    // the stored record is untouched
    let entry = ledger.get(&key, &owner_a()).unwrap();
    assert_eq!(entry.texts[1], b"first".to_vec());
}

#[test]
fn mutation_requires_existence() {
    let mut ledger = review_ledger();
    let key = b"never created".to_vec();
    let r = ledger.update(&key, &owner_a(), &owner_a(), review("t", "d", 3));
    assert_eq!(r, Err(StoreError::NotFound));
    let r = ledger.delete(&key, &owner_a(), &owner_a());
    assert_eq!(r, Err(StoreError::NotFound));
}

#[test]
fn mutation_requires_authorization() {
    let mut ledger = review_ledger();
    let key = b"dune".to_vec();
    ledger
        .create(&key, &owner_a(), review("dune", "mine", 4), 1000)
        .unwrap();
    let r = ledger.update(&key, &owner_a(), &owner_b(), review("dune", "stolen", 1));
    assert_eq!(r, Err(StoreError::Unauthorized));
    let r = ledger.delete(&key, &owner_a(), &owner_b());
    assert_eq!(r, Err(StoreError::Unauthorized));
    // the record is unchanged
    let entry = ledger.get(&key, &owner_a()).unwrap();
    assert_eq!(entry.texts[1], b"mine".to_vec());
    assert_eq!(entry.scalars[0], 4);
}

#[test]
fn bounds_are_enforced_at_create() {
    let mut ledger = review_ledger();
    let long_title = "x".repeat(21);
    let r = ledger.create(
        &b"k1".to_vec(),
        &owner_a(),
        review(&long_title, "ok", 3),
        1000,
    );
    assert_eq!(
        r,
        Err(StoreError::Validation { err: ValidationError::FieldTooLong { field: 0 } })
    );
    let r = ledger.create(&b"k2".to_vec(), &owner_a(), review("ok", "ok", 0), 1000);
    assert_eq!(
        r,
        Err(StoreError::Validation { err: ValidationError::OutOfRange { field: 0 } })
    );
    let r = ledger.create(&b"k3".to_vec(), &owner_a(), review("ok", "ok", 6), 1000);
    assert_eq!(
        r,
        Err(StoreError::Validation { err: ValidationError::OutOfRange { field: 0 } })
    );
    let long_description = "y".repeat(51);
    let r = ledger.create(
        &b"k4".to_vec(),
        &owner_a(),
        review("ok", &long_description, 3),
        1000,
    );
    assert_eq!(
        r,
        Err(StoreError::Validation { err: ValidationError::FieldTooLong { field: 1 } })
    );
    // boundary values pass
    let title20 = "t".repeat(20);
    let description50 = "d".repeat(50);
    assert!(ledger
        .create(&b"k5".to_vec(), &owner_a(), review(&title20, &description50, 1), 1000)
        .is_ok());
    assert!(ledger
        .create(&b"k6".to_vec(), &owner_a(), review("ok", "ok", 5), 1000)
        .is_ok());
}

#[test]
fn bounds_are_enforced_at_update_too() {
    let mut ledger = review_ledger();
    let key = b"dune".to_vec();
    ledger
        .create(&key, &owner_a(), review("dune", "ok", 3), 1000)
        .unwrap();
    let r = ledger.update(&key, &owner_a(), &owner_a(), review("dune", &"z".repeat(51), 3));
    assert_eq!(
        r,
        Err(StoreError::Validation { err: ValidationError::FieldTooLong { field: 1 } })
    );
    let entry = ledger.get(&key, &owner_a()).unwrap();
    assert_eq!(entry.texts[1], b"ok".to_vec());
}

#[test]
fn validate_runs_scalars_before_texts() {
    let shape = review_shape();
    let bad_both = review(&"x".repeat(21), "ok", 0);
    assert_eq!(
        validate(&shape, &bad_both),
        Err(ValidationError::OutOfRange { field: 0 })
    );
    assert_eq!(validate(&shape, &review("ok", "ok", 3)), Ok(()));
}

#[test]
fn update_resizes_storage_exactly() {
    let mut ledger = review_ledger();
    let key = b"film".to_vec();
    ledger
        .create(&key, &owner_a(), review("film", "12345", 3), 1000)
        .unwrap();
    let base = 8 + 32 + 1 + (4 + 4); // fixed part plus the title region
    assert_eq!(
        ledger.get(&key, &owner_a()).unwrap().storage_size,
        base + 4 + 5
    );
    let description50 = "e".repeat(50);
    ledger
        .update(&key, &owner_a(), &owner_a(), review("film", &description50, 3))
        .unwrap();
    assert_eq!(
        ledger.get(&key, &owner_a()).unwrap().storage_size,
        base + 4 + 50
    );
    ledger
        .update(&key, &owner_a(), &owner_a(), review("film", "abc", 3))
        .unwrap();
    let entry = ledger.get(&key, &owner_a()).unwrap();
    assert_eq!(entry.storage_size, base + 4 + 3);
    // nothing of the 50-byte description is readable beyond offset 3
    assert_eq!(entry.texts[1].len(), 3);
    assert_eq!(entry.texts[1], b"abc".to_vec());
}

#[test]
fn update_is_idempotent_in_effect() {
    let mut ledger = review_ledger();
    let key = b"film".to_vec();
    ledger
        .create(&key, &owner_a(), review("film", "first", 2), 1000)
        .unwrap();
    ledger
        .update(&key, &owner_a(), &owner_a(), review("film", "again", 4))
        .unwrap();
    let once = {
        let entry = ledger.get(&key, &owner_a()).unwrap();
        (entry.texts.clone(), entry.scalars.clone(), entry.storage_size)
    };
    ledger
        .update(&key, &owner_a(), &owner_a(), review("film", "again", 4))
        .unwrap();
    let entry = ledger.get(&key, &owner_a()).unwrap();
    assert_eq!((entry.texts.clone(), entry.scalars.clone(), entry.storage_size), once);
}

#[test]
fn delete_reclaims_and_frees_the_address() {
    let mut ledger = review_ledger();
    let reserve = ledger.reserve();
    let key = b"gone".to_vec();
    ledger
        .create(&key, &owner_a(), review("gone", "old words", 2), 1000)
        .unwrap();
    let reclaimed = ledger.delete(&key, &owner_a(), &owner_a()).unwrap();
    assert_eq!(reclaimed, reserve);
    assert!(ledger.get(&key, &owner_a()).is_none());
    // delete is not idempotent
    assert_eq!(
        ledger.delete(&key, &owner_a(), &owner_a()),
        Err(StoreError::NotFound)
    );
    // the address is reusable, and the new record holds nothing of the old
    ledger
        .create(&key, &owner_a(), review("gone", "new", 5), 1000)
        .unwrap();
    let entry = ledger.get(&key, &owner_a()).unwrap();
    assert_eq!(entry.texts[1], b"new".to_vec());
    assert_eq!(entry.scalars[0], 5);
}

#[test]
fn create_needs_funds_for_the_reserve() {
    let mut ledger = review_ledger();
    let r = ledger.create(&b"k".to_vec(), &owner_a(), review("t", "d", 3), 10);
    assert_eq!(r, Err(StoreError::InsufficientFunds));
    assert!(ledger.get(&b"k".to_vec(), &owner_a()).is_none());
}

#[test]
fn oversized_natural_key_exhausts_the_address_space() {
    let mut ledger = review_ledger();
    // a seed longer than the external address space accepts
    let key = vec![3u8; 33];
    let r = ledger.create(&key, &owner_a(), review("t", "d", 3), 1000);
    assert_eq!(r, Err(StoreError::AddressSpaceExhausted));
}

#[test]
fn student_records_use_the_same_engine() {
    // a student record: a name of at most 20 bytes and an intro of at
    // most 50, no scalar field
    let shape = Shape { text_maxes: vec![20, 50], scalars: vec![] };
    let mut ledger = Ledger::new(shape, tag(), 1).unwrap();
    assert_eq!(ledger.reserve(), 8 + 32 + 24 + 54);
    let student = |name: &str, intro: &str| Payload {
        texts: vec![name.as_bytes().to_vec(), intro.as_bytes().to_vec()],
        scalars: vec![],
    };
    let key = b"ada".to_vec();
    ledger.create(&key, &owner_a(), student("ada", "likes math"), 500).unwrap();
    let r = ledger.create(&key, &owner_a(), student("ada", "again"), 500);
    assert_eq!(r, Err(StoreError::AlreadyExists));
    ledger
        .update(&key, &owner_a(), &owner_a(), student("ada", "likes proofs"))
        .unwrap();
    let entry = ledger.get(&key, &owner_a()).unwrap();
    assert_eq!(entry.texts[1], b"likes proofs".to_vec());
    ledger.delete(&key, &owner_a(), &owner_a()).unwrap();
    assert!(ledger.get(&key, &owner_a()).is_none());
}

#[test]
fn ledger_new_rejects_a_bad_tag_or_shape() {
    assert!(Ledger::new(review_shape(), vec![7u8; 31], 1).is_none());
    let bad_shape = Shape {
        text_maxes: vec![],
        scalars: vec![ScalarField { min: 5, max: 1, width: 1 }],
    };
    assert!(Ledger::new(bad_shape, tag(), 1).is_none());
    // a reserve that cannot fit
    assert!(Ledger::new(review_shape(), tag(), u64::MAX).is_none());
}
