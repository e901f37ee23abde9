use certnft::account::Identity;
use certnft::errors::Error;
use certnft::facade::{require_initialized, settle_remote, transfer_requests, Facade};

fn ident(b: u8) -> Identity {
    Identity::from_bytes(vec![b])
}

#[test]
fn init_makes_the_caller_owner_and_manager() {
    let facade = Facade::init(ident(1));
    assert_eq!(facade.owner.bytes, vec![1]);
    assert!(facade.is_caller_manager(&ident(1)));
    assert!(!facade.is_caller_manager(&ident(2)));
    let managers = facade.list_managers();
    assert_eq!(managers.len(), 1);
    assert_eq!(managers[0].bytes, vec![1]);
}

#[test]
fn default_facade_belongs_to_the_anonymous_principal() {
    let facade = Facade::default();
    assert_eq!(facade.owner.bytes, vec![4]);
    assert!(facade.list_managers().is_empty());
    assert!(!facade.is_caller_manager(&ident(4)));
}

#[test]
fn grant_requires_the_owner() {
    let mut facade = Facade::init(ident(1));
    let r = facade.grant_manager(&ident(2), &ident(3));
    assert!(matches!(r, Err(Error::Unauthorized)));
    assert!(!facade.is_caller_manager(&ident(3)));
}

#[test]
fn granting_an_existing_manager_fails_and_changes_nothing() {
    let mut facade = Facade::init(ident(1));
    facade.grant_manager(&ident(1), &ident(2)).unwrap();
    let before: Vec<Vec<u8>> = facade.list_managers().iter().map(|m| m.bytes.clone()).collect();
    let r = facade.grant_manager(&ident(1), &ident(2));
    assert!(matches!(r, Err(Error::AlreadyManager)));
    let after: Vec<Vec<u8>> = facade.list_managers().iter().map(|m| m.bytes.clone()).collect();
    assert_eq!(before, after);
}

#[test]
fn revoking_the_owner_always_fails() {
    let mut facade = Facade::init(ident(1));
    let r = facade.revoke_manager(&ident(1), &ident(1));
    assert!(matches!(r, Err(Error::CannotRevokeOwner)));
    assert!(facade.is_caller_manager(&ident(1)));
    // A non-owner caller is turned away before the target is looked at.
    let r2 = facade.revoke_manager(&ident(2), &ident(1));
    assert!(matches!(r2, Err(Error::Unauthorized)));
}

#[test]
fn revoking_a_non_manager_fails_invalid_manager() {
    let mut facade = Facade::init(ident(1));
    let r = facade.revoke_manager(&ident(1), &ident(3));
    assert!(matches!(r, Err(Error::InvalidManager)));
}

#[test]
fn revoke_clears_the_flag_and_twice_fails() {
    let mut facade = Facade::init(ident(1));
    facade.grant_manager(&ident(1), &ident(2)).unwrap();
    assert!(facade.is_caller_manager(&ident(2)));
    facade.revoke_manager(&ident(1), &ident(2)).unwrap();
    assert!(!facade.is_caller_manager(&ident(2)));
    // A cleared flag reads the same as absence.
    let r = facade.revoke_manager(&ident(1), &ident(2));
    assert!(matches!(r, Err(Error::InvalidManager)));
    let managers = facade.list_managers();
    assert_eq!(managers.len(), 1);
    assert_eq!(managers[0].bytes, vec![1]);
}

#[test]
fn a_revoked_manager_can_be_granted_again() {
    let mut facade = Facade::init(ident(1));
    facade.grant_manager(&ident(1), &ident(2)).unwrap();
    facade.revoke_manager(&ident(1), &ident(2)).unwrap();
    facade.grant_manager(&ident(1), &ident(2)).unwrap();
    assert!(facade.is_caller_manager(&ident(2)));
}

#[test]
fn authorize_privileged_requires_the_manager_role() {
    let mut facade = Facade::init(ident(1));
    facade.grant_manager(&ident(1), &ident(2)).unwrap();
    assert!(facade.authorize_privileged(&ident(2)).is_ok());
    let r = facade.authorize_privileged(&ident(3));
    assert!(matches!(r, Err(Error::Unauthorized)));
}

#[test]
fn settle_remote_passes_results_and_wraps_transport_failures() {
    let ok: Result<Result<u128, Error>, String> = Ok(Ok(5));
    assert!(matches!(settle_remote(ok), Ok(5)));
    let remote_err: Result<Result<u128, Error>, String> = Ok(Err(Error::NotSet));
    assert!(matches!(settle_remote(remote_err), Err(Error::NotSet)));
    let transport: Result<Result<u128, Error>, String> = Err("unreachable".to_owned());
    match settle_remote(transport) {
        Err(Error::RemoteCallFailed(d)) => assert_eq!(d, "unreachable"),
        other => panic!("unexpected outcome: {:?}", other),
    }
}

#[test]
fn require_initialized_distinguishes_the_empty_cell() {
    let empty: Option<Facade> = None;
    assert!(matches!(require_initialized(&empty), Err(Error::NotInitialized)));
    let full = Some(Facade::init(ident(1)));
    let f = require_initialized(&full).unwrap();
    assert_eq!(f.owner.bytes, vec![1]);
}

#[test]
fn transfer_requests_carry_each_token_to_the_recipient() {
    let args = transfer_requests(vec![7, 8], &ident(2), Some([3u8; 32]));
    assert_eq!(args.len(), 2);
    assert_eq!(args[0].token_id, 7);
    assert_eq!(args[1].token_id, 8);
    for a in &args {
        assert_eq!(a.from_subaccount, Some([3u8; 32]));
        assert_eq!(a.to.owner.bytes, vec![2]);
        assert!(a.to.subaccount.is_none());
        assert!(a.memo.is_none());
        assert!(a.created_at_time.is_none());
    }
}
