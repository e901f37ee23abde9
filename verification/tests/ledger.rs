use certnft::account::{Account, Identity};
use certnft::errors::Error;
use certnft::ledger::{icrc10_supported_standards, Ledger, MintArgs, MintBatchArgs};
use certnft::metadata::{CollectionMetadata, InitArg, MetadataValue, SetBaseUriArgs};
use certnft::token::{Token, TransferArg};

fn ident(b: u8) -> Identity {
    Identity::from_bytes(vec![b])
}

fn acct(b: u8) -> Account {
    Account::from_identity(ident(b))
}

fn fresh() -> Ledger {
    Ledger::init(InitArg {
        minting_auth: None,
        icrc7_name: "Certifications".to_owned(),
        icrc7_symbol: "CERT".to_owned(),
        icrc7_supply_cap: Some(1000),
        icrc7_description: None,
        icrc7_logo: None,
    })
}

fn mint_to(ledger: &mut Ledger, owner: Account, name: &str) -> u128 {
    ledger
        .mint(MintArgs {
            owner,
            name: name.to_owned(),
            description: None,
            logo: None,
        })
        .unwrap()
}

#[test]
fn mint_assigns_sequential_ids_from_one() {
    let mut ledger = fresh();
    assert_eq!(mint_to(&mut ledger, acct(1), "a"), 1);
    assert_eq!(mint_to(&mut ledger, acct(2), "b"), 2);
    assert_eq!(mint_to(&mut ledger, acct(1), "c"), 3);
    assert_eq!(ledger.icrc7_total_supply(), 3);
    assert_eq!(ledger.get_next_token_id(), 4);
}

#[test]
fn transfer_by_non_owner_fails_unauthorized_and_changes_nothing() {
    let mut ledger = fresh();
    let id = mint_to(&mut ledger, acct(1), "a");
    let results = ledger.icrc7_transfer(
        acct(2),
        vec![TransferArg {
            token_id: id,
            from_subaccount: None,
            to: acct(3),
            memo: None,
            created_at_time: None,
        }],
    );
    assert!(matches!(results[0], Err(Error::Unauthorized)));
    let owners = ledger.icrc7_owner_of(vec![id]);
    assert_eq!(owners[0].as_ref().unwrap().owner.bytes, vec![1]);
}

#[test]
fn transfer_with_wrong_subaccount_fails_unauthorized() {
    let mut ledger = fresh();
    let id = mint_to(&mut ledger, acct(1), "a");
    let results = ledger.icrc7_transfer(
        acct(1),
        vec![TransferArg {
            token_id: id,
            from_subaccount: Some([7u8; 32]),
            to: acct(3),
            memo: None,
            created_at_time: None,
        }],
    );
    assert!(matches!(results[0], Err(Error::Unauthorized)));
}

#[test]
fn transfer_to_current_owner_fails_invalid_transfer() {
    let mut ledger = fresh();
    let id = mint_to(&mut ledger, acct(1), "a");
    let results = ledger.icrc7_transfer(
        acct(1),
        vec![TransferArg {
            token_id: id,
            from_subaccount: None,
            to: acct(1),
            memo: None,
            created_at_time: None,
        }],
    );
    assert!(matches!(results[0], Err(Error::InvalidTransfer)));
}

#[test]
fn transfer_of_unknown_token_fails_non_existent() {
    let mut ledger = fresh();
    let results = ledger.icrc7_transfer(
        acct(1),
        vec![TransferArg {
            token_id: 9,
            from_subaccount: None,
            to: acct(2),
            memo: None,
            created_at_time: None,
        }],
    );
    assert!(matches!(results[0], Err(Error::NonExistentToken)));
}

#[test]
fn transfer_moves_ownership_and_elements_are_independent() {
    let mut ledger = fresh();
    let a = mint_to(&mut ledger, acct(1), "a");
    let b = mint_to(&mut ledger, acct(1), "b");
    let results = ledger.icrc7_transfer(
        acct(1),
        vec![
            TransferArg {
                token_id: a,
                from_subaccount: None,
                to: acct(2),
                memo: None,
                created_at_time: None,
            },
            TransferArg {
                token_id: 42,
                from_subaccount: None,
                to: acct(2),
                memo: None,
                created_at_time: None,
            },
            TransferArg {
                token_id: b,
                from_subaccount: None,
                to: acct(3),
                memo: None,
                created_at_time: None,
            },
        ],
    );
    assert!(matches!(results[0], Ok(1)));
    assert!(matches!(results[1], Err(Error::NonExistentToken)));
    assert!(matches!(results[2], Ok(2)));
    let owners = ledger.icrc7_owner_of(vec![a, b]);
    assert_eq!(owners[0].as_ref().unwrap().owner.bytes, vec![2]);
    assert_eq!(owners[1].as_ref().unwrap().owner.bytes, vec![3]);
}

#[test]
fn mint_batch_pads_names_with_last_element() {
    let mut ledger = fresh();
    let ids = ledger
        .mint_batch(MintBatchArgs {
            owners: vec![acct(1), acct(2), acct(3)],
            names: vec!["x".to_owned()],
            descriptions: vec![],
            logos: vec![],
        })
        .unwrap();
    assert_eq!(ids, vec![1, 2, 3]);
    let metas = ledger.icrc7_token_metadata(vec![1, 2, 3]);
    for m in &metas {
        assert_eq!(m.as_ref().unwrap().name, "x");
    }
    let owners = ledger.icrc7_owner_of(vec![1, 2, 3]);
    assert_eq!(owners[0].as_ref().unwrap().owner.bytes, vec![1]);
    assert_eq!(owners[1].as_ref().unwrap().owner.bytes, vec![2]);
    assert_eq!(owners[2].as_ref().unwrap().owner.bytes, vec![3]);
}

#[test]
fn mint_batch_failure_keeps_the_earlier_mints() {
    // A store restored with a token under id 2 while the counter still
    // stands at 1: the first mint takes id 1, the second collides with
    // the persisted token and aborts the batch.
    let stray = Token::new(2, acct(9), "old".to_owned(), None, None);
    let mut ledger = Ledger::restore(CollectionMetadata::empty(), vec![stray]).unwrap();
    let r = ledger.mint_batch(MintBatchArgs {
        owners: vec![acct(1), acct(2), acct(3)],
        names: vec!["n".to_owned()],
        descriptions: vec![],
        logos: vec![],
    });
    assert!(matches!(r, Err(Error::InsertConflict)));
    // The first mint's token persists: non-atomicity is observable.
    let owners = ledger.icrc7_owner_of(vec![1, 2]);
    assert_eq!(owners[0].as_ref().unwrap().owner.bytes, vec![1]);
    assert_eq!(owners[1].as_ref().unwrap().owner.bytes, vec![9]);
    assert_eq!(ledger.icrc7_total_supply(), 2);
}

#[test]
fn failed_mint_leaves_the_ledger_unchanged() {
    // A restored store already holding the counter's id: the mint
    // reports the conflict and neither the store nor the counter moves.
    let stray = Token::new(1, acct(9), "old".to_owned(), None, None);
    let mut ledger = Ledger::restore(CollectionMetadata::empty(), vec![stray]).unwrap();
    let r = ledger.mint(MintArgs {
        owner: acct(1),
        name: "n".to_owned(),
        description: None,
        logo: None,
    });
    assert!(matches!(r, Err(Error::InsertConflict)));
    assert_eq!(ledger.metadata.next_token_id, 1);
    assert_eq!(ledger.icrc7_total_supply(), 1);
    let owners = ledger.icrc7_owner_of(vec![1]);
    assert_eq!(owners[0].as_ref().unwrap().owner.bytes, vec![9]);
}

#[test]
fn mint_batch_rejects_longer_inputs() {
    let mut ledger = fresh();
    let r = ledger.mint_batch(MintBatchArgs {
        owners: vec![acct(1)],
        names: vec!["x".to_owned(), "y".to_owned()],
        descriptions: vec![],
        logos: vec![],
    });
    assert!(matches!(r, Err(Error::LengthMismatch)));
    assert_eq!(ledger.icrc7_total_supply(), 0);
    assert_eq!(ledger.metadata.next_token_id, 1);
}

#[test]
fn restore_rejects_unordered_stores() {
    let t1 = Token::new(5, acct(1), "a".to_owned(), None, None);
    let t2 = Token::new(3, acct(1), "b".to_owned(), None, None);
    assert!(Ledger::restore(CollectionMetadata::empty(), vec![t1, t2]).is_none());
}

#[test]
fn base_uri_not_set_then_set_and_token_uri() {
    let mut ledger = fresh();
    assert!(matches!(ledger.base_uri(), Err(Error::NotSet)));
    for i in 1..=5u8 {
        mint_to(&mut ledger, acct(i), "t");
    }
    // While the base URI is unset, a known token's URI is empty.
    assert_eq!(ledger.token_uri(5).unwrap(), "");
    ledger
        .set_base_uri(SetBaseUriArgs { uri: "https://x/".to_owned() })
        .unwrap();
    assert_eq!(ledger.base_uri().unwrap(), "https://x/");
    assert_eq!(ledger.token_uri(5).unwrap(), "https://x/5");
    assert!(matches!(ledger.token_uri(6), Err(Error::NonExistentToken)));
}

#[test]
fn token_uri_renders_multi_digit_ids() {
    let stray = Token::new(120, acct(1), "t".to_owned(), None, None);
    let mut metadata = CollectionMetadata::empty();
    metadata.base_token_uri = "u/".to_owned();
    let ledger = Ledger::restore(metadata, vec![stray]).unwrap();
    assert_eq!(ledger.token_uri(120).unwrap(), "u/120");
}

#[test]
fn balance_of_counts_owned_tokens() {
    let mut ledger = fresh();
    mint_to(&mut ledger, acct(1), "a");
    mint_to(&mut ledger, acct(1), "b");
    let moved = mint_to(&mut ledger, acct(1), "c");
    let results = ledger.icrc7_transfer(
        acct(1),
        vec![TransferArg {
            token_id: moved,
            from_subaccount: None,
            to: acct(2),
            memo: None,
            created_at_time: None,
        }],
    );
    assert!(matches!(results[0], Ok(_)));
    let balances = ledger.icrc7_balance_of(vec![acct(1), acct(2), acct(3)]);
    assert_eq!(balances, vec![2, 1, 0]);
}

#[test]
fn owner_of_unknown_is_none() {
    let ledger = fresh();
    let owners = ledger.icrc7_owner_of(vec![1]);
    assert!(owners[0].is_none());
}

#[test]
fn token_metadata_returns_the_minted_fields() {
    let mut ledger = fresh();
    ledger
        .mint(MintArgs {
            owner: acct(1),
            name: "gold".to_owned(),
            description: Some("first".to_owned()),
            logo: Some("logo.png".to_owned()),
        })
        .unwrap();
    let metas = ledger.icrc7_token_metadata(vec![1, 2]);
    let m = metas[0].as_ref().unwrap();
    assert_eq!(m.name, "gold");
    assert_eq!(m.description.as_deref(), Some("first"));
    assert_eq!(m.logo.as_deref(), Some("logo.png"));
    assert!(metas[1].is_none());
}

#[test]
fn tokens_and_tokens_of_paginate_in_id_order() {
    let mut ledger = fresh();
    for i in 0..5u8 {
        mint_to(&mut ledger, acct(i % 2), "t");
    }
    assert_eq!(ledger.icrc7_tokens(None, None), vec![1, 2, 3, 4, 5]);
    assert_eq!(ledger.icrc7_tokens(Some(2), Some(2)), vec![3, 4]);
    assert_eq!(ledger.icrc7_tokens(Some(5), None), Vec::<u128>::new());
    // Accounts alternate: acct(0) owns 1, 3, 5 and acct(1) owns 2, 4.
    assert_eq!(ledger.icrc7_tokens_of(acct(0), None, None), vec![1, 3, 5]);
    assert_eq!(ledger.icrc7_tokens_of(acct(1), None, Some(1)), vec![2]);
    assert_eq!(ledger.icrc7_tokens_of(acct(1), Some(2), None), vec![4]);
}

#[test]
fn getters_reflect_the_init_arguments() {
    let ledger = fresh();
    assert_eq!(ledger.icrc7_name().as_deref(), Some("Certifications"));
    assert_eq!(ledger.icrc7_symbol().as_deref(), Some("CERT"));
    assert_eq!(ledger.icrc7_supply_cap(), Some(1000));
    assert_eq!(ledger.icrc7_description(), None);
    assert_eq!(ledger.icrc7_logo(), None);
    assert_eq!(ledger.icrc7_max_query_batch_size(), None);
    assert_eq!(ledger.icrc7_max_update_batch_size(), None);
    assert_eq!(ledger.icrc7_default_take_value(), None);
    assert_eq!(ledger.icrc7_max_take_value(), None);
    assert_eq!(ledger.icrc7_max_memo_size(), None);
    assert_eq!(ledger.icrc7_atomic_batch_transfer(), None);
    assert_eq!(ledger.icrc7_tx_window(), None);
    assert_eq!(ledger.icrc7_permitted_drift(), None);
}

#[test]
fn collection_metadata_lists_present_fields_in_order() {
    let mut ledger = fresh();
    mint_to(&mut ledger, acct(1), "a");
    let entries = ledger.icrc7_collection_metadata();
    assert_eq!(entries.len(), 4);
    assert_eq!(entries[0].key, "icrc7:name");
    assert!(matches!(&entries[0].value, MetadataValue::Text(t) if t == "Certifications"));
    assert_eq!(entries[1].key, "icrc7:symbol");
    assert!(matches!(&entries[1].value, MetadataValue::Text(t) if t == "CERT"));
    assert_eq!(entries[2].key, "icrc7:total_supply");
    assert!(matches!(entries[2].value, MetadataValue::Nat(1)));
    assert_eq!(entries[3].key, "icrc7:supply_cap");
    assert!(matches!(entries[3].value, MetadataValue::Nat(1000)));
}

#[test]
fn supported_standards_lists_icrc7_and_icrc61() {
    let standards = icrc10_supported_standards();
    assert_eq!(standards.len(), 2);
    assert_eq!(standards[0].name, "ICRC-7");
    assert_eq!(standards[0].url, "https://github.com/dfinity/ICRC/ICRCs/ICRC-7");
    assert_eq!(standards[1].name, "ICRC-61");
    assert_eq!(standards[1].url, "https://github.com/dfinity/ICRC/ICRCs/ICRC-61");
}

#[test]
fn burn_is_a_no_op() {
    certnft::ledger::burn();
}
