use nft_registry::Account;
use nft_registry::ApprovalArgs;
use nft_registry::ApprovalCollectionArgs;
use nft_registry::Identity;
use nft_registry::MintArgs;
use nft_registry::Registry;
use nft_registry::TransferError;
use nft_registry::TransferFromArgs;
use nft_registry::UpdateCollectionDetailsArgs;
use nft_registry::UpdateMintScheduleArgs;

fn ident(n: u64) -> Identity {
    Identity::new(n)
}

fn account(n: u64) -> Account {
    Account { owner: ident(n), subaccount: None }
}

const CANISTER: u64 = 999;

fn registry_with_token(owner: u64) -> (Registry, u64) {
    let mut reg = Registry::new();
    let args = UpdateCollectionDetailsArgs {
        name: None,
        symbol: None,
        description: None,
        max_supply: None,
        base_url: None,
        logo: None,
        pricing_enabled: Some(true),
    };
    reg.update_collection_details(true, args).unwrap();
    let sched = UpdateMintScheduleArgs {
        name: "Open".to_string(),
        bundle_prices: vec![nft_registry::BundlePrice { quantity: 1, price: 0 }],
        start_time: None,
        end_time: None,
        active: Some(true),
        whitelist_only: Some(false),
    };
    reg.update_mint_schedule(true, &sched).unwrap();
    let id = reg
        .mint(ident(owner), ident(CANISTER), false, 1, &MintArgs { asset_id: "a".to_string() })
        .unwrap();
    (reg, id)
}

fn approval_request(token_id: u64, spender: u64, expires_at: Option<u64>) -> ApprovalArgs {
    ApprovalArgs {
        from_subaccount: None,
        spender: account(spender),
        token_id,
        expires_at,
        memo: None,
        created_at_time: None,
    }
}

fn transfer_from_request(token_id: u64, from: u64, to: u64) -> TransferFromArgs {
    TransferFromArgs {
        spender_subaccount: None,
        from: account(from),
        to: account(to),
        token_id,
        memo: None,
        created_at_time: None,
    }
}

#[test]
fn token_approval_requires_existence_and_ownership() {
    let (mut reg, id) = registry_with_token(1);
    let results = reg.icrc37_approve_tokens(ident(1), 10, &vec![approval_request(42, 2, None)]);
    assert_eq!(results, vec![Err(TransferError::NotFound)]);
    let results = reg.icrc37_approve_tokens(ident(3), 10, &vec![approval_request(id, 2, None)]);
    assert_eq!(results, vec![Err(TransferError::Unauthorized)]);
    let results = reg.icrc37_approve_tokens(ident(1), 10, &vec![approval_request(id, 2, None)]);
    assert_eq!(results, vec![Ok(10)]);
    assert!(reg.icrc37_is_approved(&account(2), &account(1), id, 10));
}

#[test]
fn approval_expiry_boundary() {
    // A grant expiring at T authorizes every moment up to and including T
    // and nothing after it; a grant without expiry always authorizes.
    let (mut reg, id) = registry_with_token(1);
    reg.icrc37_approve_tokens(ident(1), 10, &vec![approval_request(id, 2, Some(100))]);
    assert!(reg.icrc37_is_approved(&account(2), &account(1), id, 10));
    assert!(reg.icrc37_is_approved(&account(2), &account(1), id, 99));
    assert!(reg.icrc37_is_approved(&account(2), &account(1), id, 100));
    assert!(!reg.icrc37_is_approved(&account(2), &account(1), id, 101));
    assert!(!reg.icrc37_is_approved(&account(2), &account(1), id, u64::MAX));
    reg.icrc37_approve_tokens(ident(1), 10, &vec![approval_request(id, 3, None)]);
    assert!(reg.icrc37_is_approved(&account(3), &account(1), id, u64::MAX));
}

#[test]
fn collection_approval_rejects_self_and_grants_all_tokens() {
    let (mut reg, id) = registry_with_token(1);
    let self_args = ApprovalCollectionArgs {
        from_subaccount: None,
        spender: account(1),
        expires_at: None,
        memo: None,
        created_at_time: None,
    };
    match reg.icrc37_approve_collection(ident(1), 10, &self_args) {
        Err(TransferError::GenericError { error_code, message }) => {
            assert_eq!(error_code, 1);
            assert_eq!(message, "Self-approval is unnecessary");
        },
        other => panic!("expected a self-approval rejection, got {:?}", other),
    }
    let args = ApprovalCollectionArgs {
        from_subaccount: None,
        spender: account(2),
        expires_at: None,
        memo: None,
        created_at_time: None,
    };
    assert_eq!(reg.icrc37_approve_collection(ident(1), 10, &args), Ok(10));
    assert!(reg.icrc37_is_approved(&account(2), &account(1), id, 50));
}

#[test]
fn transfer_from_consumes_token_approval() {
    // After a successful delegated transfer on a token-scoped grant, the
    // identical request fails without a fresh grant.
    let (mut reg, id) = registry_with_token(1);
    reg.icrc37_approve_tokens(ident(1), 10, &vec![approval_request(id, 2, None)]);
    let results = reg.icrc37_transfer_from(ident(2), 20, &vec![transfer_from_request(id, 1, 3)]);
    assert_eq!(results, vec![Ok(20)]);
    assert_eq!(reg.icrc7_owner_of(&vec![id])[0].as_ref().unwrap().owner, ident(3));
    let results = reg.icrc37_transfer_from(ident(2), 21, &vec![transfer_from_request(id, 1, 3)]);
    assert_eq!(results, vec![Err(TransferError::Unauthorized)]);
    // Even a transfer back to the delegate's principal source fails: the
    // grant is gone.
    let results = reg.icrc37_transfer_from(ident(2), 22, &vec![transfer_from_request(id, 3, 1)]);
    assert_eq!(results, vec![Err(TransferError::Unauthorized)]);
}

#[test]
fn collection_approval_is_not_consumed() {
    // A collection-scoped grant keeps working transfer after transfer.
    let (mut reg, first) = registry_with_token(1);
    let second = reg
        .mint(ident(1), ident(CANISTER), false, 2, &MintArgs { asset_id: "b".to_string() })
        .unwrap();
    let args = ApprovalCollectionArgs {
        from_subaccount: None,
        spender: account(2),
        expires_at: None,
        memo: None,
        created_at_time: None,
    };
    reg.icrc37_approve_collection(ident(1), 10, &args).unwrap();
    let results = reg.icrc37_transfer_from(ident(2), 20, &vec![transfer_from_request(first, 1, 3)]);
    assert_eq!(results, vec![Ok(20)]);
    let results =
        reg.icrc37_transfer_from(ident(2), 21, &vec![transfer_from_request(second, 1, 3)]);
    assert_eq!(results, vec![Ok(21)]);
}

#[test]
fn transfer_from_requires_stated_source_and_grant() {
    let (mut reg, id) = registry_with_token(1);
    // No grant at all.
    let results = reg.icrc37_transfer_from(ident(2), 20, &vec![transfer_from_request(id, 1, 3)]);
    assert_eq!(results, vec![Err(TransferError::Unauthorized)]);
    // A grant, but the stated source does not own the token.
    reg.icrc37_approve_tokens(ident(1), 10, &vec![approval_request(id, 2, None)]);
    let results = reg.icrc37_transfer_from(ident(2), 20, &vec![transfer_from_request(id, 4, 3)]);
    assert_eq!(results, vec![Err(TransferError::Unauthorized)]);
    // A missing token.
    let results = reg.icrc37_transfer_from(ident(2), 20, &vec![transfer_from_request(42, 1, 3)]);
    assert_eq!(results, vec![Err(TransferError::NotFound)]);
    // An expired grant: valid through moment 15, expired at 16 and later.
    reg.icrc37_approve_tokens(ident(1), 10, &vec![approval_request(id, 5, Some(15))]);
    let results = reg.icrc37_transfer_from(ident(5), 16, &vec![transfer_from_request(id, 1, 3)]);
    assert_eq!(results, vec![Err(TransferError::Unauthorized)]);
}

#[test]
fn transfer_from_records_delegated_operation() {
    let (mut reg, id) = registry_with_token(1);
    reg.icrc37_approve_tokens(ident(1), 10, &vec![approval_request(id, 2, None)]);
    reg.icrc37_transfer_from(ident(2), 20, &vec![transfer_from_request(id, 1, 3)]);
    let response = reg.icrc3_get_transactions(nft_registry::GetTransactionsRequest {
        start: None,
        length: Some(100),
    });
    let last = response.transactions.last().unwrap();
    assert_eq!(last.kind, "transfer");
    assert_eq!(last.operation, "transfer_from");
    assert_eq!(last.from, ident(1));
    assert_eq!(last.to, ident(3));
    // The approval itself was also recorded.
    let approve = &response.transactions[1];
    assert_eq!(approve.kind, "approve");
    assert_eq!(approve.operation, "token_approval");
}

#[test]
fn approval_overwrites_previous_grant() {
    let (mut reg, id) = registry_with_token(1);
    reg.icrc37_approve_tokens(ident(1), 10, &vec![approval_request(id, 2, Some(50))]);
    // A later grant for the same (token, spender) replaces the expiry.
    reg.icrc37_approve_tokens(ident(1), 11, &vec![approval_request(id, 2, Some(500))]);
    assert!(reg.icrc37_is_approved(&account(2), &account(1), id, 100));
}
