//! The ledger's stated properties, checked on concrete values, and the
//! genesis loader.

use base_nft::{Error, GenesisConfig, Pallet};

const ALICE: u64 = 1;
const BOB: u64 = 2;
const CAROL: u64 = 3;

/// The recorded percentages of one token, summed straight off the table.
fn recorded_sum(p: &Pallet, token: (u64, u64)) -> u64 {
    p.tokens_by_owner
        .iter()
        .filter(|e| e.0 .1 == token)
        .map(|e| e.1.percent_owned as u64)
        .sum()
}

/// The accounts holding a record of one token, in no particular order.
fn recorded_owners(p: &Pallet, token: (u64, u64)) -> Vec<u64> {
    let mut v: Vec<u64> = p
        .tokens_by_owner
        .iter()
        .filter(|e| e.0 .1 == token)
        .map(|e| e.0 .0)
        .collect();
    v.sort();
    v
}

#[test]
fn owner_list_and_records_agree() {
    let mut p = Pallet::new();
    assert!(p.create_class(ALICE, vec![1], vec![]).is_ok());
    assert!(p.mint(BOB, 0, vec![1], vec![]).is_ok());
    assert_eq!(p.transfer(BOB, ALICE, (0, 0), 20), Ok(()));
    assert_eq!(p.transfer(BOB, CAROL, (0, 0), 30), Ok(()));

    let owners = p.token_info((0, 0)).unwrap().owners.clone();
    assert_eq!(owners, vec![ALICE, BOB, CAROL]);
    assert_eq!(recorded_owners(&p, (0, 0)), vec![ALICE, BOB, CAROL]);
    assert_eq!(recorded_sum(&p, (0, 0)), 100);

    assert_eq!(p.token_by_owner(ALICE, (0, 0)).unwrap().percent_owned, 20);
    assert_eq!(p.token_by_owner(BOB, (0, 0)).unwrap().percent_owned, 50);
    assert_eq!(p.token_by_owner(CAROL, (0, 0)).unwrap().percent_owned, 30);
}

#[test]
fn issuance_counts_live_tokens() {
    let mut p = Pallet::new();
    assert!(p.create_class(ALICE, vec![1], vec![]).is_ok());
    assert!(p.mint(BOB, 0, vec![1], vec![]).is_ok());
    assert!(p.mint(BOB, 0, vec![2], vec![]).is_ok());
    assert!(p.mint(ALICE, 0, vec![3], vec![]).is_ok());
    assert_eq!(p.class_info(0).unwrap().total_issuance, 3);
    assert_eq!(p.tokens.iter().filter(|e| e.0 .0 == 0).count(), 3);

    assert_eq!(p.burn(BOB, (0, 1)), Ok(()));
    assert_eq!(p.class_info(0).unwrap().total_issuance, 2);
    assert_eq!(p.tokens.iter().filter(|e| e.0 .0 == 0).count(), 2);
}

#[test]
fn identifiers_are_never_reused() {
    let mut p = Pallet::new();
    assert_eq!(p.create_class(ALICE, vec![1], vec![]), Ok(0));
    assert_eq!(p.mint(BOB, 0, vec![1], vec![]), Ok(0));
    assert_eq!(p.burn(BOB, (0, 0)), Ok(()));
    // The burned token's identifier is not handed out again.
    assert_eq!(p.mint(BOB, 0, vec![2], vec![]), Ok(1));
    assert_eq!(p.burn(BOB, (0, 1)), Ok(()));
    // Nor is a destroyed class's identifier.
    assert_eq!(p.destroy_class(ALICE, 0), Ok(()));
    assert_eq!(p.create_class(ALICE, vec![2], vec![]), Ok(1));
}

#[test]
fn self_transfer_changes_nothing() {
    let mut p = Pallet::new();
    assert!(p.create_class(ALICE, vec![1], vec![]).is_ok());
    assert!(p.mint(BOB, 0, vec![1], vec![]).is_ok());
    assert_eq!(p.transfer(BOB, ALICE, (0, 0), 25), Ok(()));

    for percentage in [0u8, 1, 25, 110, 255] {
        let snapshot = p.clone();
        assert_eq!(p.transfer(BOB, BOB, (0, 0), percentage), Ok(()));
        assert_eq!(p, snapshot);
        assert_eq!(p.transfer(ALICE, ALICE, (0, 0), percentage), Ok(()));
        assert_eq!(p, snapshot);
    }
}

#[test]
fn transfer_of_zero_percent_is_refused() {
    let mut p = Pallet::new();
    assert!(p.create_class(ALICE, vec![1], vec![]).is_ok());
    assert!(p.mint(BOB, 0, vec![1], vec![]).is_ok());
    let snapshot = p.clone();
    assert_eq!(p.transfer(BOB, ALICE, (0, 0), 0), Err(Error::WrongArguments));
    assert_eq!(p, snapshot);
}

#[test]
fn transfer_to_missing_token_is_refused() {
    let mut p = Pallet::new();
    assert!(p.create_class(ALICE, vec![1], vec![]).is_ok());
    let snapshot = p.clone();
    assert_eq!(p.transfer(BOB, ALICE, (0, 0), 10), Err(Error::TokenNotFound));
    assert_eq!(p, snapshot);
}

#[test]
fn mint_into_missing_class_is_refused() {
    let mut p = Pallet::new();
    let snapshot = p.clone();
    assert_eq!(p.mint(BOB, 7, vec![1], vec![]), Err(Error::ClassNotFound));
    assert_eq!(p, snapshot);
}

#[test]
fn burn_wipes_every_owner_record() {
    let mut p = Pallet::new();
    assert!(p.create_class(ALICE, vec![1], vec![]).is_ok());
    assert!(p.mint(BOB, 0, vec![1], vec![]).is_ok());
    assert_eq!(p.transfer(BOB, ALICE, (0, 0), 40), Ok(()));
    assert!(p.is_owner(ALICE, (0, 0)));

    // Any current owner may burn, and every owner's record goes.
    assert_eq!(p.burn(ALICE, (0, 0)), Ok(()));
    assert!(!p.is_owner(ALICE, (0, 0)));
    assert!(!p.is_owner(BOB, (0, 0)));
    assert_eq!(recorded_owners(&p, (0, 0)), Vec::<u64>::new());
    assert!(p.token_info((0, 0)).is_none());
}

#[test]
fn class_record_is_stored_as_given() {
    let mut p = Pallet::new();
    assert_eq!(p.create_class(ALICE, vec![9, 8], vec![7]), Ok(0));
    let info = p.class_info(0).unwrap();
    assert_eq!(info.metadata, vec![9, 8]);
    assert_eq!(info.owner, ALICE);
    assert_eq!(info.total_issuance, 0);
    assert_eq!(info.data, vec![7]);

    let t = p.mint(BOB, 0, vec![5], vec![6]).unwrap();
    let ti = p.token_info((0, t)).unwrap();
    assert_eq!(ti.metadata, vec![5]);
    assert_eq!(ti.owners, vec![BOB]);
    assert_eq!(ti.data, vec![6]);
}

#[test]
fn genesis_default_is_empty() {
    let config = GenesisConfig::default();
    assert!(config.tokens.is_empty());
    let mut p = Pallet::new();
    assert_eq!(config.build(&mut p), Ok(()));
    assert_eq!(p, Pallet::new());
}

#[test]
fn genesis_build_loads_classes_and_tokens() {
    let config = GenesisConfig {
        tokens: vec![
            (
                ALICE,
                vec![1],
                vec![],
                vec![(BOB, vec![10], vec![]), (CAROL, vec![11], vec![])],
            ),
            (BOB, vec![2], vec![], vec![(ALICE, vec![12], vec![])]),
        ],
    };
    let mut p = Pallet::new();
    assert_eq!(config.build(&mut p), Ok(()));

    assert_eq!(p.next_class_id, 2);
    let c0 = p.class_info(0).unwrap();
    assert_eq!(c0.owner, ALICE);
    assert_eq!(c0.metadata, vec![1]);
    assert_eq!(c0.total_issuance, 2);
    let c1 = p.class_info(1).unwrap();
    assert_eq!(c1.owner, BOB);
    assert_eq!(c1.total_issuance, 1);

    assert_eq!(p.token_info((0, 0)).unwrap().owners, vec![BOB]);
    assert_eq!(p.token_info((0, 1)).unwrap().owners, vec![CAROL]);
    assert_eq!(p.token_info((1, 0)).unwrap().owners, vec![ALICE]);
    assert_eq!(p.token_by_owner(BOB, (0, 0)).unwrap().percent_owned, 100);
    assert_eq!(p.token_by_owner(CAROL, (0, 1)).unwrap().percent_owned, 100);
    assert_eq!(p.token_by_owner(ALICE, (1, 0)).unwrap().percent_owned, 100);
    assert_eq!(p.next_token_id(0), 2);
    assert_eq!(p.next_token_id(1), 1);
}

#[test]
fn genesis_build_fails_without_class_ids() {
    let config = GenesisConfig {
        tokens: vec![(ALICE, vec![1], vec![], vec![])],
    };
    let mut p = Pallet::new();
    p.next_class_id = u64::MAX;
    let snapshot = p.clone();
    assert_eq!(config.build(&mut p), Err(Error::NoAvailableClassId));
    assert_eq!(p, snapshot);
}

#[test]
fn owner_list_stays_sorted() {
    let mut p = Pallet::new();
    assert!(p.create_class(ALICE, vec![1], vec![]).is_ok());
    assert!(p.mint(CAROL, 0, vec![1], vec![]).is_ok());
    assert_eq!(p.transfer(CAROL, BOB, (0, 0), 10), Ok(()));
    assert_eq!(p.transfer(CAROL, ALICE, (0, 0), 10), Ok(()));
    assert_eq!(p.token_info((0, 0)).unwrap().owners, vec![ALICE, BOB, CAROL]);

    // The sender leaves the list the moment its share reaches zero.
    assert_eq!(p.transfer(CAROL, ALICE, (0, 0), 80), Ok(()));
    assert_eq!(p.token_info((0, 0)).unwrap().owners, vec![ALICE, BOB]);
    assert_eq!(recorded_sum(&p, (0, 0)), 100);
}
