use poe::registry::Config;
use poe::registry::Error;
use poe::registry::Event;
use poe::registry::Pallet;

fn new_registry() -> Pallet {
    Pallet::new(Config { max_claim_length: 2 })
}

#[test]
fn create_claim_works() {
    let mut pallet = new_registry();
    let claim: Vec<u8> = vec![0, 1];

    assert!(pallet.create_claim(1, claim.clone()).is_ok());

    assert_eq!(pallet.get_claim(&claim), Some((1, pallet.block_number())));
}

#[test]
fn create_claim_failed_when_claim_too_long() {
    let mut pallet = new_registry();
    let claim: Vec<u8> = vec![0, 1, 2];

    assert_eq!(
        pallet.create_claim(1, claim.clone()),
        Err(Error::ClaimTooLong)
    );

    assert_eq!(pallet.max_claim_length(), 2);
    assert_eq!(pallet.get_claim(&claim), None);
}

#[test]
fn create_claim_failed_when_claim_already_exist() {
    let mut pallet = new_registry();
    let claim: Vec<u8> = vec![0, 1];

    let _ = pallet.create_claim(1, claim.clone());

    assert_eq!(
        pallet.create_claim(1, claim.clone()),
        Err(Error::ClaimAlreadyExist)
    );
}

#[test]
fn revoke_claim_works() {
    let mut pallet = new_registry();
    let claim: Vec<u8> = vec![0, 1];

    let _ = pallet.create_claim(1, claim.clone());

    assert!(pallet.revoke_claim(1, claim.clone()).is_ok());

    assert_eq!(pallet.get_claim(&claim), None);
}

#[test]
fn revoke_claim_when_claim_not_exists() {
    let mut pallet = new_registry();
    let claim: Vec<u8> = vec![0, 1];

    assert_eq!(
        pallet.revoke_claim(1, claim.clone()),
        Err(Error::ClaimNotExist)
    );
}

#[test]
fn revoke_claim_when_not_claim_owner() {
    let mut pallet = new_registry();
    let claim: Vec<u8> = vec![0, 1];

    let _ = pallet.create_claim(1, claim.clone());

    assert_eq!(
        pallet.revoke_claim(2, claim.clone()),
        Err(Error::NotClaimOwner)
    );
}

#[test]
fn transfer_claim_works() {
    let mut pallet = new_registry();
    let claim: Vec<u8> = vec![0, 1];

    let _ = pallet.create_claim(1, claim.clone());

    assert!(pallet.transfer_claim(1, claim.clone(), 2).is_ok());

    assert_eq!(pallet.get_claim(&claim), Some((2, pallet.block_number())));
}

#[test]
fn transfer_claim_when_claim_not_exists() {
    let mut pallet = new_registry();
    let claim: Vec<u8> = vec![0, 1];

    assert_eq!(
        pallet.transfer_claim(1, claim.clone(), 2),
        Err(Error::ClaimNotExist)
    );
}

#[test]
fn transfer_claim_when_not_claim_owner() {
    let mut pallet = new_registry();
    let claim: Vec<u8> = vec![0, 1];

    let _ = pallet.create_claim(1, claim.clone());

    assert_eq!(
        pallet.transfer_claim(2, claim.clone(), 3),
        Err(Error::NotClaimOwner)
    );
}

#[test]
fn create_claim_accepts_content_at_the_length_bound() {
    let mut pallet = new_registry();
    let at_bound: Vec<u8> = vec![7, 8];

    assert!(pallet.create_claim(1, at_bound.clone()).is_ok());
    assert_eq!(pallet.get_claim(&at_bound), Some((1, 0)));

    let past_bound: Vec<u8> = vec![7, 8, 9];
    assert_eq!(
        pallet.create_claim(1, past_bound.clone()),
        Err(Error::ClaimTooLong)
    );
    assert_eq!(pallet.get_claim(&past_bound), None);
}

#[test]
fn create_claim_accepts_empty_content() {
    let mut pallet = new_registry();
    let claim: Vec<u8> = vec![];

    assert!(pallet.create_claim(4, claim.clone()).is_ok());
    assert_eq!(pallet.get_claim(&claim), Some((4, 0)));
}

#[test]
fn length_is_checked_before_existence() {
    let mut pallet = new_registry();
    let too_long: Vec<u8> = vec![0, 1, 2];

    // No record exists for this content, yet the length error wins.
    assert_eq!(
        pallet.revoke_claim(1, too_long.clone()),
        Err(Error::ClaimTooLong)
    );
    assert_eq!(
        pallet.transfer_claim(1, too_long.clone(), 2),
        Err(Error::ClaimTooLong)
    );
}

#[test]
fn duplicate_create_keeps_the_first_record() {
    let mut pallet = new_registry();
    let claim: Vec<u8> = vec![0, 1];

    pallet.set_block_number(3);
    assert!(pallet.create_claim(1, claim.clone()).is_ok());

    pallet.set_block_number(9);
    assert_eq!(
        pallet.create_claim(2, claim.clone()),
        Err(Error::ClaimAlreadyExist)
    );

    assert_eq!(pallet.get_claim(&claim), Some((1, 3)));
}

#[test]
fn revoked_claim_can_be_created_again() {
    let mut pallet = new_registry();
    let claim: Vec<u8> = vec![0, 1];

    let _ = pallet.create_claim(1, claim.clone());
    assert!(pallet.revoke_claim(1, claim.clone()).is_ok());

    pallet.set_block_number(5);
    assert!(pallet.create_claim(2, claim.clone()).is_ok());
    assert_eq!(pallet.get_claim(&claim), Some((2, 5)));
}

#[test]
fn transfer_refreshes_the_registration_time() {
    let mut pallet = new_registry();
    let claim: Vec<u8> = vec![0, 1];

    pallet.set_block_number(10);
    assert!(pallet.create_claim(1, claim.clone()).is_ok());
    assert_eq!(pallet.get_claim(&claim), Some((1, 10)));

    pallet.set_block_number(20);
    assert!(pallet.transfer_claim(1, claim.clone(), 2).is_ok());
    assert_eq!(pallet.get_claim(&claim), Some((2, 20)));
}

#[test]
fn transfer_to_self_is_allowed_and_refreshes_time() {
    let mut pallet = new_registry();
    let claim: Vec<u8> = vec![0, 1];

    pallet.set_block_number(5);
    assert!(pallet.create_claim(1, claim.clone()).is_ok());

    pallet.set_block_number(7);
    assert!(pallet.transfer_claim(1, claim.clone(), 1).is_ok());
    assert_eq!(pallet.get_claim(&claim), Some((1, 7)));
}

#[test]
fn end_to_end_create_transfer_revoke() {
    let mut pallet = new_registry();
    let claim: Vec<u8> = vec![0, 1];

    assert!(pallet.create_claim(1, claim.clone()).is_ok());
    assert_eq!(pallet.get_claim(&claim), Some((1, 0)));

    pallet.set_block_number(1);
    assert!(pallet.transfer_claim(1, claim.clone(), 2).is_ok());
    assert_eq!(pallet.get_claim(&claim), Some((2, 1)));

    assert_eq!(
        pallet.revoke_claim(1, claim.clone()),
        Err(Error::NotClaimOwner)
    );
    assert!(pallet.revoke_claim(2, claim.clone()).is_ok());
    assert_eq!(pallet.get_claim(&claim), None);
}

#[test]
fn events_record_each_successful_mutation() {
    let mut pallet = new_registry();
    let claim: Vec<u8> = vec![0, 1];

    assert!(pallet.create_claim(1, claim.clone()).is_ok());
    assert_eq!(
        pallet.create_claim(1, claim.clone()),
        Err(Error::ClaimAlreadyExist)
    );
    assert!(pallet.transfer_claim(1, claim.clone(), 2).is_ok());
    assert!(pallet.revoke_claim(2, claim.clone()).is_ok());

    // Failed calls leave no trace; successful ones are recorded in order.
    let expected = vec![
        Event::ClaimCreated(1, claim.clone()),
        Event::ClaimTransfered(1, 2, claim.clone()),
        Event::ClaimRevoked(2, claim.clone()),
    ];
    assert_eq!(pallet.events(), &expected);
}

#[test]
fn claims_under_different_keys_are_independent() {
    let mut pallet = new_registry();
    let first: Vec<u8> = vec![0, 1];
    let second: Vec<u8> = vec![2];

    assert!(pallet.create_claim(1, first.clone()).is_ok());
    assert!(pallet.create_claim(2, second.clone()).is_ok());

    assert!(pallet.revoke_claim(1, first.clone()).is_ok());

    assert_eq!(pallet.get_claim(&first), None);
    assert_eq!(pallet.get_claim(&second), Some((2, 0)));
}
