use claim_registry::{ensure_signed, Claim, Error, Event, Origin, Pallet};

const ALICE: u64 = 1;
const BOB: u64 = 2;
const CAROL: u64 = 3;

fn doc1() -> Vec<u8> {
    b"doc1".to_vec()
}

#[test]
fn example_scenario() {
    let mut p = Pallet::new();
    let t0: u64 = 10;
    assert_eq!(
        p.create_claim(Origin::Signed(ALICE), doc1(), t0),
        Ok(Event::ClaimCreated(ALICE, doc1()))
    );
    assert_eq!(p.proofs(&doc1()), Some(Claim { owner: ALICE, recorded_at: t0 }));
    assert_eq!(p.revoke_claim(Origin::Signed(BOB), doc1()), Err(Error::NotClaimOwner));
    let t1: u64 = 11;
    assert_eq!(
        p.transfer_claim(Origin::Signed(ALICE), doc1(), CAROL, t1),
        Ok(Event::ClaimTransfered(ALICE, doc1(), CAROL))
    );
    let c = p.proofs(&doc1()).unwrap();
    assert_eq!(c, Claim { owner: CAROL, recorded_at: t1 });
    assert!(c.recorded_at >= t0);
    assert_eq!(p.revoke_claim(Origin::Signed(ALICE), doc1()), Err(Error::NotClaimOwner));
    assert_eq!(
        p.revoke_claim(Origin::Signed(CAROL), doc1()),
        Ok(Event::ClaimRevoked(CAROL, doc1()))
    );
    assert_eq!(p.proofs(&doc1()), None);
}

#[test]
fn second_create_fails_until_revoked() {
    let mut p = Pallet::new();
    assert!(p.create_claim(Origin::Signed(ALICE), doc1(), 1).is_ok());
    assert_eq!(p.create_claim(Origin::Signed(BOB), doc1(), 2), Err(Error::ProofAlreadyExist));
    assert_eq!(p.create_claim(Origin::Signed(ALICE), doc1(), 2), Err(Error::ProofAlreadyExist));
    assert_eq!(p.proofs(&doc1()), Some(Claim { owner: ALICE, recorded_at: 1 }));
    assert!(p.revoke_claim(Origin::Signed(ALICE), doc1()).is_ok());
    assert_eq!(
        p.create_claim(Origin::Signed(BOB), doc1(), 3),
        Ok(Event::ClaimCreated(BOB, doc1()))
    );
    assert_eq!(p.proofs(&doc1()), Some(Claim { owner: BOB, recorded_at: 3 }));
}

#[test]
fn non_owner_is_refused_and_owner_accepted() {
    let mut p = Pallet::new();
    p.create_claim(Origin::Signed(ALICE), doc1(), 1).unwrap();
    assert_eq!(p.revoke_claim(Origin::Signed(BOB), doc1()), Err(Error::NotClaimOwner));
    assert_eq!(
        p.transfer_claim(Origin::Signed(BOB), doc1(), BOB, 2),
        Err(Error::NotClaimOwner)
    );
    assert_eq!(p.proofs(&doc1()), Some(Claim { owner: ALICE, recorded_at: 1 }));
    assert!(p.transfer_claim(Origin::Signed(ALICE), doc1(), BOB, 2).is_ok());
    assert!(p.revoke_claim(Origin::Signed(BOB), doc1()).is_ok());
}

#[test]
fn absent_claim_is_not_found_for_anyone() {
    let mut p = Pallet::new();
    p.create_claim(Origin::Signed(ALICE), b"other".to_vec(), 1).unwrap();
    assert_eq!(p.revoke_claim(Origin::Signed(ALICE), doc1()), Err(Error::ClaimNotExist));
    assert_eq!(p.revoke_claim(Origin::Signed(BOB), doc1()), Err(Error::ClaimNotExist));
    assert_eq!(
        p.transfer_claim(Origin::Signed(BOB), doc1(), CAROL, 2),
        Err(Error::ClaimNotExist)
    );
}

#[test]
fn revoke_twice_is_not_found() {
    let mut p = Pallet::new();
    p.create_claim(Origin::Signed(ALICE), doc1(), 1).unwrap();
    assert!(p.revoke_claim(Origin::Signed(ALICE), doc1()).is_ok());
    assert_eq!(p.revoke_claim(Origin::Signed(ALICE), doc1()), Err(Error::ClaimNotExist));
    assert!(!p.contains_key(&doc1()));
}

#[test]
fn transfer_moves_ownership_back_and_forth() {
    let mut p = Pallet::new();
    p.create_claim(Origin::Signed(ALICE), doc1(), 1).unwrap();
    p.transfer_claim(Origin::Signed(ALICE), doc1(), BOB, 4).unwrap();
    assert_eq!(p.proofs(&doc1()), Some(Claim { owner: BOB, recorded_at: 4 }));
    assert!(p.contains_key(&doc1()));
    assert_eq!(
        p.transfer_claim(Origin::Signed(ALICE), doc1(), CAROL, 5),
        Err(Error::NotClaimOwner)
    );
    assert_eq!(
        p.transfer_claim(Origin::Signed(BOB), doc1(), ALICE, 6),
        Ok(Event::ClaimTransfered(BOB, doc1(), ALICE))
    );
    assert_eq!(p.proofs(&doc1()), Some(Claim { owner: ALICE, recorded_at: 6 }));
}

#[test]
fn transfer_to_self_restamps() {
    let mut p = Pallet::new();
    p.create_claim(Origin::Signed(ALICE), doc1(), 1).unwrap();
    assert_eq!(
        p.transfer_claim(Origin::Signed(ALICE), doc1(), ALICE, 9),
        Ok(Event::ClaimTransfered(ALICE, doc1(), ALICE))
    );
    assert_eq!(p.proofs(&doc1()), Some(Claim { owner: ALICE, recorded_at: 9 }));
}

#[test]
fn failures_leave_state_unchanged() {
    let mut p = Pallet::new();
    p.create_claim(Origin::Signed(ALICE), doc1(), 1).unwrap();
    p.create_claim(Origin::Signed(BOB), b"doc2".to_vec(), 2).unwrap();
    let before = (p.proofs(&doc1()), p.proofs(&b"doc2".to_vec()), p.proofs(&b"doc3".to_vec()));
    assert!(p.create_claim(Origin::Signed(CAROL), doc1(), 3).is_err());
    assert!(p.revoke_claim(Origin::Signed(CAROL), doc1()).is_err());
    assert!(p.revoke_claim(Origin::Signed(CAROL), b"doc3".to_vec()).is_err());
    assert!(p.transfer_claim(Origin::Signed(BOB), doc1(), BOB, 4).is_err());
    assert!(p.transfer_claim(Origin::Signed(BOB), b"doc3".to_vec(), BOB, 4).is_err());
    assert!(p.create_claim(Origin::Root, b"doc3".to_vec(), 5).is_err());
    let after = (p.proofs(&doc1()), p.proofs(&b"doc2".to_vec()), p.proofs(&b"doc3".to_vec()));
    assert_eq!(before, after);
}

#[test]
fn unsigned_origins_are_refused() {
    let mut p = Pallet::new();
    assert_eq!(ensure_signed(Origin::Signed(ALICE)), Ok(ALICE));
    assert_eq!(ensure_signed(Origin::Root), Err(Error::BadOrigin));
    assert_eq!(p.create_claim(Origin::Unsigned, doc1(), 1), Err(Error::BadOrigin));
    p.create_claim(Origin::Signed(ALICE), doc1(), 1).unwrap();
    assert_eq!(p.revoke_claim(Origin::Root, doc1()), Err(Error::BadOrigin));
    assert_eq!(p.transfer_claim(Origin::Unsigned, doc1(), BOB, 2), Err(Error::BadOrigin));
    assert_eq!(p.proofs(&doc1()), Some(Claim { owner: ALICE, recorded_at: 1 }));
}

#[test]
fn fingerprints_are_compared_byte_by_byte() {
    let mut p = Pallet::new();
    p.create_claim(Origin::Signed(ALICE), vec![1, 2, 3], 1).unwrap();
    assert!(p.create_claim(Origin::Signed(BOB), vec![1, 2], 2).is_ok());
    assert!(p.create_claim(Origin::Signed(BOB), vec![1, 2, 4], 3).is_ok());
    assert!(p.create_claim(Origin::Signed(BOB), vec![], 4).is_ok());
    assert_eq!(p.create_claim(Origin::Signed(BOB), vec![], 5), Err(Error::ProofAlreadyExist));
    assert!(p.revoke_claim(Origin::Signed(BOB), vec![1, 2]).is_ok());
    assert_eq!(p.proofs(&vec![1, 2, 3]), Some(Claim { owner: ALICE, recorded_at: 1 }));
    assert_eq!(p.proofs(&vec![1, 2, 4]), Some(Claim { owner: BOB, recorded_at: 3 }));
    assert_eq!(p.proofs(&vec![1, 2]), None);
}
