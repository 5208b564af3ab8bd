//! The lifecycle operations, exercised end to end on a fresh ledger.

use base_nft::{Error, Pallet};

const ALICE: u64 = 1;
const BOB: u64 = 2;
const CLASS_ID: u64 = 0;
const CLASS_ID_NOT_EXIST: u64 = 100;
const TOKEN_ID: u64 = 0;
const TOKEN_ID_NOT_EXIST: u64 = 100;

#[test]
fn create_class_should_work() {
    let mut p = Pallet::new();
    assert!(p.create_class(ALICE, vec![1], vec![]).is_ok());
}

#[test]
fn create_class_should_fail() {
    let mut p = Pallet::new();
    p.next_class_id = u64::MAX;
    let snapshot = p.clone();
    assert_eq!(
        p.create_class(ALICE, vec![1], vec![]),
        Err(Error::NoAvailableClassId)
    );
    assert_eq!(p, snapshot);
}

#[test]
fn mint_should_work() {
    let mut p = Pallet::new();
    let next_class_id = p.next_class_id;
    assert_eq!(next_class_id, CLASS_ID);
    assert!(p.create_class(ALICE, vec![1], vec![]).is_ok());
    assert_eq!(p.next_token_id(CLASS_ID), 0);
    assert!(p.mint(BOB, CLASS_ID, vec![1], vec![]).is_ok());
    assert_eq!(p.next_token_id(CLASS_ID), 1);
    assert!(p.mint(BOB, CLASS_ID, vec![1], vec![]).is_ok());
    assert_eq!(p.next_token_id(CLASS_ID), 2);

    let next_class_id = p.next_class_id;
    assert!(p.create_class(ALICE, vec![1], vec![]).is_ok());
    assert_eq!(p.next_token_id(next_class_id), 0);
    assert!(p.mint(BOB, next_class_id, vec![1], vec![]).is_ok());
    assert_eq!(p.next_token_id(next_class_id), 1);

    assert_eq!(p.next_token_id(CLASS_ID), 2);
}

#[test]
fn mint_should_fail() {
    let mut p = Pallet::new();
    assert!(p.create_class(ALICE, vec![1], vec![]).is_ok());
    for e in p.classes.iter_mut() {
        if e.0 == CLASS_ID {
            e.1.total_issuance = u64::MAX;
        }
    }
    let snapshot = p.clone();
    assert_eq!(
        p.mint(BOB, CLASS_ID, vec![1], vec![]),
        Err(Error::NumOverflow)
    );
    assert_eq!(p, snapshot);

    p.next_token_ids.push((CLASS_ID, u64::MAX));
    let snapshot = p.clone();
    assert_eq!(
        p.mint(BOB, CLASS_ID, vec![1], vec![]),
        Err(Error::NoAvailableTokenId)
    );
    assert_eq!(p, snapshot);
}

#[test]
fn same_account_transfers_noop() {
    let mut p = Pallet::new();
    assert!(p.create_class(ALICE, vec![1], vec![]).is_ok());
    assert!(p.mint(BOB, CLASS_ID, vec![1], vec![]).is_ok());

    assert_eq!(p.transfer(BOB, BOB, (CLASS_ID, TOKEN_ID), 110), Ok(()));

    assert!(p.is_owner(BOB, (CLASS_ID, TOKEN_ID)));
    assert_eq!(p.is_owner(ALICE, (CLASS_ID, TOKEN_ID)), false);

    assert_eq!(p.transfer(BOB, BOB, (CLASS_ID, TOKEN_ID), 70), Ok(()));

    assert!(p.is_owner(BOB, (CLASS_ID, TOKEN_ID)));
    assert_eq!(p.is_owner(ALICE, (CLASS_ID, TOKEN_ID)), false);
}

#[test]
fn fractional_transfers_should_fail() {
    let mut p = Pallet::new();
    assert!(p.create_class(ALICE, vec![1], vec![]).is_ok());
    assert!(p.mint(BOB, CLASS_ID, vec![1], vec![]).is_ok());

    let snapshot = p.clone();
    assert_eq!(
        p.transfer(BOB, ALICE, (CLASS_ID, TOKEN_ID), 110),
        Err(Error::SenderInsufficientPercentage)
    );
    assert_eq!(p, snapshot);
}

#[test]
fn fractional_transfer_of_ownership() {
    let mut p = Pallet::new();
    assert!(p.create_class(ALICE, vec![1], vec![]).is_ok());
    assert!(p.mint(BOB, CLASS_ID, vec![1], vec![]).is_ok());

    assert_eq!(p.transfer(BOB, ALICE, (CLASS_ID, TOKEN_ID), 20), Ok(()));
    assert!(p.is_owner(BOB, (CLASS_ID, TOKEN_ID)));
    assert!(p.is_owner(ALICE, (CLASS_ID, TOKEN_ID)));

    assert_eq!(p.transfer(BOB, ALICE, (CLASS_ID, TOKEN_ID), 80), Ok(()));
    assert_eq!(p.is_owner(BOB, (CLASS_ID, TOKEN_ID)), false);
    assert!(p.is_owner(ALICE, (CLASS_ID, TOKEN_ID)));

    let snapshot = p.clone();
    assert_eq!(
        p.transfer(BOB, ALICE, (CLASS_ID, TOKEN_ID), 1),
        Err(Error::NoPermission)
    );
    assert_eq!(p, snapshot);
}

// transfer small percentages between accounts and check ownership along the way
#[test]
fn fractional_ownership_works() {
    let mut p = Pallet::new();
    assert!(p.create_class(ALICE, vec![1], vec![]).is_ok());
    assert!(p.mint(BOB, CLASS_ID, vec![1], vec![]).is_ok());

    assert_eq!(p.transfer(BOB, ALICE, (CLASS_ID, TOKEN_ID), 20), Ok(()));
    assert!(p.is_owner(BOB, (CLASS_ID, TOKEN_ID)));
    assert!(p.is_owner(ALICE, (CLASS_ID, TOKEN_ID)));

    assert_eq!(p.transfer(BOB, ALICE, (CLASS_ID, TOKEN_ID), 10), Ok(()));
    assert!(p.is_owner(BOB, (CLASS_ID, TOKEN_ID)));
    assert!(p.is_owner(ALICE, (CLASS_ID, TOKEN_ID)));

    let snapshot = p.clone();
    assert_eq!(
        p.transfer(ALICE, BOB, (CLASS_ID, TOKEN_ID), 50),
        Err(Error::SenderInsufficientPercentage)
    );
    assert_eq!(p, snapshot);

    assert_eq!(p.transfer(BOB, ALICE, (CLASS_ID, TOKEN_ID), 70), Ok(()));
    assert_eq!(p.is_owner(BOB, (CLASS_ID, TOKEN_ID)), false);
    assert!(p.is_owner(ALICE, (CLASS_ID, TOKEN_ID)));

    assert_eq!(p.transfer(ALICE, BOB, (CLASS_ID, TOKEN_ID), 100), Ok(()));
    assert_eq!(p.is_owner(ALICE, (CLASS_ID, TOKEN_ID)), false);
    assert!(p.is_owner(BOB, (CLASS_ID, TOKEN_ID)));
}

#[test]
fn burn_should_work() {
    let mut p = Pallet::new();
    assert!(p.create_class(ALICE, vec![1], vec![]).is_ok());
    assert!(p.mint(BOB, CLASS_ID, vec![1], vec![]).is_ok());
    assert_eq!(p.burn(BOB, (CLASS_ID, TOKEN_ID)), Ok(()));
}

#[test]
fn burn_should_fail() {
    let mut p = Pallet::new();
    assert!(p.create_class(ALICE, vec![1], vec![]).is_ok());
    assert!(p.mint(BOB, CLASS_ID, vec![1], vec![]).is_ok());
    let snapshot = p.clone();
    assert_eq!(
        p.burn(BOB, (CLASS_ID, TOKEN_ID_NOT_EXIST)),
        Err(Error::TokenNotFound)
    );
    assert_eq!(p, snapshot);

    assert_eq!(p.burn(ALICE, (CLASS_ID, TOKEN_ID)), Err(Error::NoPermission));
    assert_eq!(p, snapshot);

    let mut p = Pallet::new();
    assert!(p.create_class(ALICE, vec![1], vec![]).is_ok());
    assert!(p.mint(BOB, CLASS_ID, vec![1], vec![]).is_ok());

    for e in p.classes.iter_mut() {
        if e.0 == CLASS_ID {
            e.1.total_issuance = 0;
        }
    }
    let snapshot = p.clone();
    assert_eq!(p.burn(BOB, (CLASS_ID, TOKEN_ID)), Err(Error::NumOverflow));
    assert_eq!(p, snapshot);
}

#[test]
fn destroy_class_should_work() {
    let mut p = Pallet::new();
    assert!(p.create_class(ALICE, vec![1], vec![]).is_ok());
    assert!(p.mint(BOB, CLASS_ID, vec![1], vec![]).is_ok());
    assert_eq!(p.burn(BOB, (CLASS_ID, TOKEN_ID)), Ok(()));
    assert_eq!(p.destroy_class(ALICE, CLASS_ID), Ok(()));
    assert!(p.class_info(CLASS_ID).is_none());
    assert!(p.next_token_ids.iter().all(|e| e.0 != CLASS_ID));
}

#[test]
fn destroy_class_should_fail() {
    let mut p = Pallet::new();
    assert!(p.create_class(ALICE, vec![1], vec![]).is_ok());
    assert!(p.mint(BOB, CLASS_ID, vec![1], vec![]).is_ok());
    let snapshot = p.clone();
    assert_eq!(
        p.destroy_class(ALICE, CLASS_ID_NOT_EXIST),
        Err(Error::ClassNotFound)
    );
    assert_eq!(p, snapshot);

    assert_eq!(p.destroy_class(BOB, CLASS_ID), Err(Error::NoPermission));
    assert_eq!(p, snapshot);

    assert_eq!(
        p.destroy_class(ALICE, CLASS_ID),
        Err(Error::CannotDestroyClass)
    );
    assert_eq!(p, snapshot);

    assert_eq!(p.burn(BOB, (CLASS_ID, TOKEN_ID)), Ok(()));
    assert_eq!(p.destroy_class(ALICE, CLASS_ID), Ok(()));
    assert!(p.class_info(CLASS_ID).is_none());
}
