use registries::Error;
use registries::LogEntry;
use registries::OwnerRules;
use registries::ROLE_ADMIN;
use registries::ROLE_ASSOCIATE;
use registries::ROLE_SUPERVISOR;
use registries::claim_preimage;

const A: u64 = 10;
const B: u64 = 20;
const C: u64 = 30;

#[test]
fn initialize_mints_admin_token() {
    let s = OwnerRules::initialize(A);
    assert!(s.has_role(A, ROLE_ADMIN));
    assert!(!s.has_role(A, ROLE_SUPERVISOR));
    assert!(!s.has_role(B, ROLE_ADMIN));
    assert_eq!(s.admin, A);
    assert!(!s.paused);
    assert!(!s.locked);
    assert_eq!(s.log.len(), 1);
    match &s.log[0] {
        LogEntry::CredentialMinted { role_id, recipient, token_id } => {
            assert_eq!(*role_id, ROLE_ADMIN);
            assert_eq!(*recipient, A);
            assert_eq!(*token_id, 1);
        }
        _ => panic!("expected a mint entry"),
    }
}

#[test]
fn transfer_admin_moves_role_and_logs() {
    let mut s = OwnerRules::initialize(A);
    let before = s.log.len();
    assert!(s.transfer_admin(A, B).is_ok());
    assert!(!s.has_role(A, ROLE_ADMIN));
    assert!(s.has_role(B, ROLE_ADMIN));
    assert_eq!(s.admin, B);
    let tail = &s.log[before..];
    assert_eq!(tail.len(), 3);
    let revoked = tail
        .iter()
        .filter(|e| matches!(e, LogEntry::CredentialRevoked { role_id, wallet, .. } if *role_id == ROLE_ADMIN && *wallet == A))
        .count();
    let minted = tail
        .iter()
        .filter(|e| matches!(e, LogEntry::CredentialMinted { role_id, recipient, .. } if *role_id == ROLE_ADMIN && *recipient == B))
        .count();
    assert_eq!(revoked, 1);
    assert_eq!(minted, 1);
    assert!(matches!(
        tail[1],
        LogEntry::AdminTransferred { old_admin, new_admin } if old_admin == A && new_admin == B
    ));
}

#[test]
fn transfer_admin_rejects_non_admin() {
    let mut s = OwnerRules::initialize(A);
    assert_eq!(s.transfer_admin(B, B), Err(Error::NotAuthorized));
    assert!(s.has_role(A, ROLE_ADMIN));
    assert_eq!(s.admin, A);
}

#[test]
fn supervisor_claim_round_trip() {
    let mut s = OwnerRules::initialize(A);
    let h = s.generate_supervisor_claim_link(A, B).unwrap();
    assert_eq!(h.len(), 32);
    match s.log.last().unwrap() {
        LogEntry::ClaimLinkGenerated { role_id, recipient, claim_hash } => {
            assert_eq!(*role_id, ROLE_SUPERVISOR);
            assert_eq!(*recipient, B);
            assert_eq!(*claim_hash, h);
        }
        _ => panic!("expected a claim-generated entry"),
    }
    let t = s.claim_nft(&h, B).unwrap();
    assert_eq!(t, 2);
    assert!(s.has_role(B, ROLE_SUPERVISOR));
    assert!(!s.locked);
    let again = s.claim_nft(&h, B);
    assert_eq!(again, Err(Error::ClaimAlreadyUsed));
    assert!(s.has_role(B, ROLE_SUPERVISOR));
    assert!(!s.locked);
}

#[test]
fn claim_rejects_wrong_recipient_and_keeps_claim_live() {
    let mut s = OwnerRules::initialize(A);
    let h = s.generate_supervisor_claim_link(A, B).unwrap();
    assert_eq!(s.claim_nft(&h, C), Err(Error::RecipientMismatch));
    assert!(!s.has_role(C, ROLE_SUPERVISOR));
    let t = s.claim_nft(&h, B);
    assert!(t.is_ok());
    assert!(s.has_role(B, ROLE_SUPERVISOR));
}

#[test]
fn claim_rejects_unknown_hash() {
    let mut s = OwnerRules::initialize(A);
    let h = vec![0u8; 32];
    assert_eq!(s.claim_nft(&h, B), Err(Error::ClaimNotFound));
    assert!(!s.locked);
}

#[test]
fn claim_rejects_while_paused() {
    let mut s = OwnerRules::initialize(A);
    let h = s.generate_supervisor_claim_link(A, B).unwrap();
    assert!(s.pause(A).is_ok());
    assert_eq!(s.claim_nft(&h, B), Err(Error::Paused));
    assert!(s.unpause(A).is_ok());
    assert!(s.claim_nft(&h, B).is_ok());
}

#[test]
fn pause_rejects_non_admin() {
    let mut s = OwnerRules::initialize(A);
    assert_eq!(s.pause(B), Err(Error::NotAuthorized));
    assert!(!s.paused);
}

#[test]
fn claim_rejects_duplicate_role() {
    let mut s = OwnerRules::initialize(A);
    let h1 = s.generate_supervisor_claim_link(A, B).unwrap();
    let h2 = s.generate_supervisor_claim_link(A, B).unwrap();
    assert!(s.claim_nft(&h1, B).is_ok());
    assert_eq!(s.claim_nft(&h2, B), Err(Error::AlreadyHasRole));
}

#[test]
fn reentrancy_is_refused_and_lock_restored() {
    let mut s = OwnerRules::initialize(A);
    let h = s.generate_supervisor_claim_link(A, B).unwrap();
    s.locked = true;
    assert_eq!(s.claim_nft(&h, B), Err(Error::Reentrancy));
    assert!(s.locked);
    assert_eq!(s.revoke_credential(A, A, ROLE_ADMIN), Err(Error::Reentrancy));
    assert!(s.locked);
    s.locked = false;
    assert!(s.claim_nft(&h, B).is_ok());
    assert!(!s.locked);
    assert!(s.revoke_credential(A, B, ROLE_SUPERVISOR).is_ok());
    assert!(!s.locked);
}

#[test]
fn revoke_credential_removes_role() {
    let mut s = OwnerRules::initialize(A);
    let h = s.generate_supervisor_claim_link(A, B).unwrap();
    s.claim_nft(&h, B).unwrap();
    assert!(s.has_role(B, ROLE_SUPERVISOR));
    assert!(s.revoke_credential(A, B, ROLE_SUPERVISOR).is_ok());
    assert!(!s.has_role(B, ROLE_SUPERVISOR));
    assert_eq!(
        s.revoke_credential(A, B, ROLE_SUPERVISOR),
        Err(Error::CredentialNotFound)
    );
    assert_eq!(s.revoke_credential(B, A, ROLE_ADMIN), Err(Error::NotAuthorized));
}

#[test]
fn associate_claim_allowed_for_supervisor_and_admin() {
    let mut s = OwnerRules::initialize(A);
    assert_eq!(
        s.generate_associate_claim_link(C, B),
        Err(Error::NotAuthorized)
    );
    let h = s.generate_supervisor_claim_link(A, B).unwrap();
    s.claim_nft(&h, B).unwrap();
    let ha = s.generate_associate_claim_link(C, B).unwrap();
    assert!(s.claim_nft(&ha, C).is_ok());
    assert!(s.has_role(C, ROLE_ASSOCIATE));
    let ha2 = s.generate_associate_claim_link(B, A).unwrap();
    assert_eq!(ha2.len(), 32);
}

#[test]
fn recover_admin_needs_allow_list_and_skips_token_bookkeeping() {
    let mut s = OwnerRules::initialize(A);
    assert_eq!(s.recover_admin(B, C), Err(Error::NotAuthorized));
    assert!(s.authorize_contract(A, B, true).is_ok());
    assert!(s.recover_admin(B, C).is_ok());
    assert_eq!(s.admin, C);
    assert!(s.has_role(A, ROLE_ADMIN));
    assert!(!s.has_role(C, ROLE_ADMIN));
    assert!(s.authorize_contract(C, B, false).is_ok());
    assert_eq!(s.recover_admin(B, A), Err(Error::NotAuthorized));
}

#[test]
fn base_uri_and_event_contract_are_admin_settable() {
    let mut s = OwnerRules::initialize(A);
    assert_eq!(s.token_uri(1), "");
    assert_eq!(
        s.set_base_uri(B, String::from("ipfs://base/")),
        Err(Error::NotAuthorized)
    );
    assert!(s.set_base_uri(A, String::from("ipfs://base/")).is_ok());
    assert_eq!(s.token_uri(1), "ipfs://base/");
    assert_eq!(s.token_uri(999), "ipfs://base/");
    assert!(s.get_event_contract().is_none());
    assert!(s.set_event_contract(A, String::from("evt-1")).is_ok());
    assert_eq!(s.get_event_contract().unwrap(), "evt-1");
    assert!(s.supports_interface(String::from("anything")));
}

#[test]
fn claim_preimage_layout_is_big_endian() {
    let p = claim_preimage(0x0102030405060708, ROLE_SUPERVISOR);
    assert_eq!(
        p,
        vec![1u8, 2, 3, 4, 5, 6, 7, 8, 0, 0, 0, 2]
    );
}
