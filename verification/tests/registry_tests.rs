use nft_registry::Account;
use nft_registry::Identity;
use nft_registry::MintArgs;
use nft_registry::MintBundleArgs;
use nft_registry::MintError;
use nft_registry::MintSchedule;
use nft_registry::Registry;
use nft_registry::TransferArgs;
use nft_registry::TransferError;
use nft_registry::UpdateCollectionDetailsArgs;
use nft_registry::UpdateMintScheduleArgs;

fn ident(n: u64) -> Identity {
    Identity::new(n)
}

fn account(n: u64) -> Account {
    Account { owner: ident(n), subaccount: None }
}

fn update_args() -> UpdateCollectionDetailsArgs {
    UpdateCollectionDetailsArgs {
        name: None,
        symbol: None,
        description: None,
        max_supply: None,
        base_url: None,
        logo: None,
        pricing_enabled: None,
    }
}

fn schedule_args(name: &str, tiers: Vec<(u64, u64)>) -> UpdateMintScheduleArgs {
    UpdateMintScheduleArgs {
        name: name.to_string(),
        bundle_prices: tiers
            .into_iter()
            .map(|(quantity, price)| nft_registry::BundlePrice { quantity, price })
            .collect(),
        start_time: None,
        end_time: None,
        active: Some(true),
        whitelist_only: Some(false),
    }
}

/// A registry with pricing enabled, no supply cap, and one always-open
/// schedule priced by `tiers`.
fn registry_with_pricing(tiers: Vec<(u64, u64)>) -> Registry {
    let mut reg = Registry::new();
    let mut args = update_args();
    args.pricing_enabled = Some(true);
    args.max_supply = Some(1_000_000);
    reg.update_collection_details(true, args).unwrap();
    reg.update_mint_schedule(true, &schedule_args("Open", tiers)).unwrap();
    reg
}

fn transfer_request(token_id: u64, to: u64) -> TransferArgs {
    TransferArgs {
        from_subaccount: None,
        to: account(to),
        token_id,
        memo: None,
        created_at_time: None,
    }
}

const CANISTER: u64 = 999;

fn mint_to(reg: &mut Registry, owner: u64, now: u64) -> u64 {
    reg.mint(
        ident(owner),
        ident(CANISTER),
        false,
        now,
        &MintArgs { asset_id: format!("asset-{}", owner) },
    )
    .unwrap()
}

#[test]
fn fresh_registry_defaults() {
    let reg = Registry::new();
    assert_eq!(reg.icrc7_name(), "ICRC-37+ NFT");
    assert_eq!(reg.icrc7_symbol(), "ICRC37+");
    assert_eq!(
        reg.icrc7_description(),
        Some("A fully compliant ICRC-37+ NFT collection".to_string())
    );
    assert_eq!(reg.icrc7_total_supply(), 0);
    let schedules = reg.get_mint_schedules();
    assert_eq!(schedules.len(), 2);
    assert_eq!(schedules[0].name, "Standard");
    assert_eq!(schedules[1].name, "Whitelist");
    assert!(schedules[1].whitelist_only);
    assert!(!schedules[0].active);
}

#[test]
fn supported_standards_lists_all_three() {
    let reg = Registry::new();
    let standards = reg.icrc7_supported_standards();
    let names: Vec<String> = standards.iter().map(|s| s.name.clone()).collect();
    assert_eq!(names, vec!["ICRC-3", "ICRC-7", "ICRC-37"]);
}

#[test]
fn mint_assigns_dense_ids_from_one() {
    let mut reg = registry_with_pricing(vec![(1, 10)]);
    assert_eq!(mint_to(&mut reg, 1, 100), 1);
    assert_eq!(mint_to(&mut reg, 2, 101), 2);
    assert_eq!(mint_to(&mut reg, 1, 102), 3);
    assert_eq!(reg.icrc7_total_supply(), 3);
    let owners = reg.icrc7_owner_of(&vec![1, 2, 3, 4]);
    assert_eq!(owners[0].as_ref().unwrap().owner, ident(1));
    assert_eq!(owners[1].as_ref().unwrap().owner, ident(2));
    assert_eq!(owners[2].as_ref().unwrap().owner, ident(1));
    assert!(owners[3].is_none());
}

#[test]
fn mint_error_taxonomy() {
    // Pricing disabled.
    let mut reg = Registry::new();
    let err = reg
        .mint(ident(1), ident(CANISTER), false, 5, &MintArgs { asset_id: "a".to_string() })
        .unwrap_err();
    assert_eq!(err, MintError::NotEnabled);

    // Pricing on, but no schedule open.
    let mut args = update_args();
    args.pricing_enabled = Some(true);
    reg.update_collection_details(true, args).unwrap();
    let err = reg
        .mint(ident(1), ident(CANISTER), false, 5, &MintArgs { asset_id: "a".to_string() })
        .unwrap_err();
    assert_eq!(err, MintError::NoActiveSchedule);

    // Schedule open but without a usable tier.
    reg.update_mint_schedule(true, &schedule_args("Open", vec![])).unwrap();
    let err = reg
        .mint(ident(1), ident(CANISTER), false, 5, &MintArgs { asset_id: "a".to_string() })
        .unwrap_err();
    assert_eq!(err, MintError::NoPrice { quantity: 1 });
}

#[test]
fn whitelist_only_schedule_requires_whitelisting() {
    let mut reg = Registry::new();
    let mut args = update_args();
    args.pricing_enabled = Some(true);
    reg.update_collection_details(true, args).unwrap();
    let mut sched = schedule_args("VIP", vec![(1, 10)]);
    sched.whitelist_only = Some(true);
    reg.update_mint_schedule(true, &sched).unwrap();
    let err = reg
        .mint(ident(1), ident(CANISTER), false, 5, &MintArgs { asset_id: "a".to_string() })
        .unwrap_err();
    assert_eq!(err, MintError::NoActiveSchedule);
    let ok = reg.mint(ident(1), ident(CANISTER), true, 5, &MintArgs { asset_id: "a".to_string() });
    assert_eq!(ok, Ok(1));
}

#[test]
fn max_supply_gates_minting() {
    let mut reg = Registry::new();
    let mut args = update_args();
    args.pricing_enabled = Some(true);
    args.max_supply = Some(2);
    reg.update_collection_details(true, args).unwrap();
    reg.update_mint_schedule(true, &schedule_args("Open", vec![(1, 10)])).unwrap();
    assert_eq!(mint_to(&mut reg, 1, 5), 1);
    assert_eq!(mint_to(&mut reg, 1, 6), 2);
    let err = reg
        .mint(ident(1), ident(CANISTER), false, 7, &MintArgs { asset_id: "x".to_string() })
        .unwrap_err();
    assert_eq!(err, MintError::SupplyReached);
}

#[test]
fn mint_bundle_mints_sequential_ids() {
    let mut reg = registry_with_pricing(vec![(1, 10)]);
    let assets: Vec<String> = (0..3).map(|k| format!("gen-{}", k)).collect();
    let ids = reg
        .mint_bundle(
            ident(7),
            ident(CANISTER),
            false,
            50,
            &MintBundleArgs { quantity: 3, asset_ids: vec![] },
            &assets,
        )
        .unwrap();
    assert_eq!(ids, vec![1, 2, 3]);
    assert_eq!(reg.icrc7_total_supply(), 3);
    // One record for the whole bundle, naming the first id.
    let tx = reg.icrc3_get_transaction(0).unwrap();
    assert_eq!(tx.kind, "mint_bundle");
    assert_eq!(tx.token_id, 1);
    assert_eq!(tx.operation, "Minted bundle of 3 tokens");
}

#[test]
fn mint_bundle_error_taxonomy() {
    let mut reg = registry_with_pricing(vec![(1, 10)]);
    let err = reg
        .mint_bundle(
            ident(7),
            ident(CANISTER),
            false,
            50,
            &MintBundleArgs { quantity: 0, asset_ids: vec![] },
            &vec![],
        )
        .unwrap_err();
    assert_eq!(err, MintError::ZeroQuantity);

    // A cap of 2 leaves room for 2, not 3.
    let mut reg = Registry::new();
    let mut args = update_args();
    args.pricing_enabled = Some(true);
    args.max_supply = Some(2);
    reg.update_collection_details(true, args).unwrap();
    reg.update_mint_schedule(true, &schedule_args("Open", vec![(1, 10)])).unwrap();
    let assets: Vec<String> = (0..3).map(|k| format!("gen-{}", k)).collect();
    let err = reg
        .mint_bundle(
            ident(7),
            ident(CANISTER),
            false,
            50,
            &MintBundleArgs { quantity: 3, asset_ids: vec![] },
            &assets,
        )
        .unwrap_err();
    assert_eq!(err, MintError::SupplyExhausted { left: 2 });
}

#[test]
fn bundle_pricing_prefers_cheapest_qualifying_total() {
    // Tiers {1: 10, 5: 40}: seven tokens cost ceil(7/5)*40 = 80, not 70.
    let reg = registry_with_pricing(vec![(1, 10), (5, 40)]);
    assert_eq!(reg.get_user_mint_price(false, 7, 0), Ok(80));
    // Three tokens: the 5-bundle is ineligible, so ceil(3/1)*10 = 30.
    assert_eq!(reg.get_user_mint_price(false, 3, 0), Ok(30));
}

#[test]
fn bundle_pricing_minimizes_across_schedules() {
    let mut reg = registry_with_pricing(vec![(1, 10)]);
    reg.update_mint_schedule(true, &schedule_args("Bulk", vec![(5, 40)])).unwrap();
    // Quantity 7: "Open" charges 70, "Bulk" charges 80; the minimum wins.
    assert_eq!(reg.get_user_mint_price(false, 7, 0), Ok(70));
    // Quantity 5: "Open" charges 50, "Bulk" charges 40.
    assert_eq!(reg.get_user_mint_price(false, 5, 0), Ok(40));
}

#[test]
fn schedule_time_window_gates_pricing() {
    let mut reg = Registry::new();
    let mut args = update_args();
    args.pricing_enabled = Some(true);
    reg.update_collection_details(true, args).unwrap();
    let mut sched = schedule_args("Window", vec![(1, 10)]);
    sched.start_time = Some(100);
    sched.end_time = Some(200);
    reg.update_mint_schedule(true, &sched).unwrap();
    assert_eq!(reg.get_user_mint_price(false, 1, 99), Err(MintError::NoActiveSchedule));
    assert_eq!(reg.get_user_mint_price(false, 1, 100), Ok(10));
    assert_eq!(reg.get_user_mint_price(false, 1, 200), Ok(10));
    assert_eq!(reg.get_user_mint_price(false, 1, 201), Err(MintError::NoActiveSchedule));
}

#[test]
fn transfer_moves_ownership_and_history() {
    let mut reg = registry_with_pricing(vec![(1, 0)]);
    let id = mint_to(&mut reg, 1, 5);
    let results = reg.icrc7_transfer(ident(1), 77, &vec![transfer_request(id, 2)]);
    assert_eq!(results, vec![Ok(77)]);
    let owners = reg.icrc7_owner_of(&vec![id]);
    assert_eq!(owners[0].as_ref().unwrap().owner, ident(2));
    let history = reg.get_transaction_history(id);
    assert_eq!(history.len(), 1);
    assert_eq!(history[0].from, ident(1));
    assert_eq!(history[0].to, ident(2));
    assert_eq!(history[0].timestamp, 77);
}

#[test]
fn transfer_rejects_non_owner_and_missing_token() {
    let mut reg = registry_with_pricing(vec![(1, 0)]);
    let id = mint_to(&mut reg, 1, 5);
    let results = reg.icrc7_transfer(ident(2), 6, &vec![transfer_request(id, 3)]);
    assert_eq!(results, vec![Err(TransferError::Unauthorized)]);
    let results = reg.icrc7_transfer(ident(1), 6, &vec![transfer_request(42, 3)]);
    assert_eq!(results, vec![Err(TransferError::NotFound)]);
    // Neither attempt moved the token.
    let owners = reg.icrc7_owner_of(&vec![id]);
    assert_eq!(owners[0].as_ref().unwrap().owner, ident(1));
}

#[test]
fn transfer_batch_commits_independently() {
    // Three requests where the second names a nonexistent token: the other
    // two still commit.
    let mut reg = registry_with_pricing(vec![(1, 0)]);
    let a = mint_to(&mut reg, 1, 5);
    let b = mint_to(&mut reg, 1, 6);
    let batch = vec![transfer_request(a, 2), transfer_request(42, 2), transfer_request(b, 2)];
    let results = reg.icrc7_transfer(ident(1), 9, &batch);
    assert_eq!(results, vec![Ok(9), Err(TransferError::NotFound), Ok(9)]);
    let owners = reg.icrc7_owner_of(&vec![a, b]);
    assert_eq!(owners[0].as_ref().unwrap().owner, ident(2));
    assert_eq!(owners[1].as_ref().unwrap().owner, ident(2));
}

#[test]
fn balances_track_transfers() {
    let mut reg = registry_with_pricing(vec![(1, 0)]);
    let a = mint_to(&mut reg, 1, 5);
    let _b = mint_to(&mut reg, 1, 6);
    let balances = reg.icrc7_balance_of(&vec![account(1), account(2)]);
    assert_eq!(balances, vec![2, 0]);
    reg.icrc7_transfer(ident(1), 9, &vec![transfer_request(a, 2)]);
    let balances = reg.icrc7_balance_of(&vec![account(1), account(2)]);
    assert_eq!(balances, vec![1, 1]);
}

#[test]
fn pagination_boundaries() {
    // Owner 1 ends up owning exactly ids {3, 5, 6, 7, 9} of nine tokens.
    let mut reg = registry_with_pricing(vec![(1, 0)]);
    let owners = [2u64, 2, 1, 2, 1, 1, 1, 2, 1];
    for (k, owner) in owners.iter().enumerate() {
        mint_to(&mut reg, *owner, 10 + k as u64);
    }
    // tokens_of is exclusive of the cursor.
    let page = reg.icrc7_tokens_of(&account(1), Some(5), Some(2));
    assert_eq!(page, vec![6, 7]);
    // list of all tokens is inclusive of the cursor.
    let page = reg.icrc7_tokens(Some(5), Some(2));
    assert_eq!(page, vec![5, 6]);
    // No cursor: from the start.
    let page = reg.icrc7_tokens_of(&account(1), None, Some(3));
    assert_eq!(page, vec![3, 5, 6]);
    let page = reg.icrc7_tokens_of(&account(1), Some(9), Some(5));
    assert_eq!(page, Vec::<u64>::new());
}

#[test]
fn take_value_is_clamped() {
    let mut reg = registry_with_pricing(vec![(1, 0)]);
    for k in 0..120 {
        mint_to(&mut reg, 1, k);
    }
    // The default page is 10 ids; requests beyond 100 are capped.
    assert_eq!(reg.icrc7_tokens(None, None).len(), 10);
    assert_eq!(reg.icrc7_tokens(None, Some(200)).len(), 100);
    assert_eq!(reg.icrc7_tokens_of(&account(1), None, None).len(), 10);
}

#[test]
fn transaction_ids_are_gapless_and_start_at_zero() {
    let mut reg = registry_with_pricing(vec![(1, 0)]);
    let a = mint_to(&mut reg, 1, 5);
    mint_to(&mut reg, 1, 6);
    reg.icrc7_transfer(ident(1), 9, &vec![transfer_request(a, 2)]);
    let response = reg.icrc3_get_transactions(nft_registry::GetTransactionsRequest {
        start: None,
        length: None,
    });
    assert_eq!(response.total, 3);
    let ids: Vec<u64> = response.transactions.iter().map(|t| t.transaction_id).collect();
    assert_eq!(ids, vec![0, 1, 2]);
    for window in ids.windows(2) {
        assert_eq!(window[1], window[0] + 1);
    }
    assert_eq!(reg.icrc3_get_transaction(1).unwrap().transaction_id, 1);
    assert!(reg.icrc3_get_transaction(3).is_none());
}

#[test]
fn transaction_pagination_clips_to_the_log() {
    let mut reg = registry_with_pricing(vec![(1, 0)]);
    for k in 0..5 {
        mint_to(&mut reg, 1, k);
    }
    let response = reg.icrc3_get_transactions(nft_registry::GetTransactionsRequest {
        start: Some(3),
        length: Some(10),
    });
    assert_eq!(response.total, 5);
    let ids: Vec<u64> = response.transactions.iter().map(|t| t.transaction_id).collect();
    assert_eq!(ids, vec![3, 4]);
    let response = reg.icrc3_get_transactions(nft_registry::GetTransactionsRequest {
        start: Some(99),
        length: None,
    });
    assert!(response.transactions.is_empty());
}

#[test]
fn max_supply_locks_once_minted() {
    let mut reg = registry_with_pricing(vec![(1, 0)]);
    // Before any mint the cap may still change.
    let mut args = update_args();
    args.max_supply = Some(10);
    assert!(reg.update_collection_details(true, args).is_ok());
    mint_to(&mut reg, 1, 5);
    // After the first mint no new cap is accepted, however large or small.
    for cap in [0u64, 1, 10_000_000] {
        let mut args = update_args();
        args.max_supply = Some(cap);
        let err = reg.update_collection_details(true, args).unwrap_err();
        assert_eq!(err, "Cannot modify max supply after minting has started");
    }
    // Updates that leave the cap alone still work.
    let mut args = update_args();
    args.name = Some("Renamed".to_string());
    assert!(reg.update_collection_details(true, args).is_ok());
    assert_eq!(reg.icrc7_name(), "Renamed");
}

#[test]
fn collection_update_requires_admin() {
    let mut reg = Registry::new();
    let err = reg.update_collection_details(false, update_args()).unwrap_err();
    assert_eq!(err, "Unauthorized: Only admins can update collection details");
    let err = reg.update_base_url(false, "https://elsewhere.example".to_string()).unwrap_err();
    assert_eq!(err, "Unauthorized: Only admins can update the base URL");
    assert!(reg.update_base_url(true, "https://elsewhere.example".to_string()).is_ok());
}

#[test]
fn update_prices_is_deprecated() {
    let reg = Registry::new();
    let err = reg.update_prices("anything".to_string()).unwrap_err();
    assert_eq!(err, "This method is deprecated. Use update_mint_schedule instead.");
}

#[test]
fn schedule_upsert_inserts_and_updates() {
    let mut reg = Registry::new();
    // Inserting a new schedule applies safe defaults for unset flags.
    let mut args = schedule_args("Early Bird", vec![(1, 5)]);
    args.active = None;
    args.whitelist_only = None;
    reg.update_mint_schedule(true, &args).unwrap();
    let schedules = reg.get_mint_schedules();
    let early = schedules.iter().find(|s| s.name == "Early Bird").unwrap();
    assert!(!early.active);
    assert!(!early.whitelist_only);

    // Updating overwrites tiers and only the supplied fields.
    let mut args = schedule_args("Early Bird", vec![(2, 8)]);
    args.active = Some(true);
    args.whitelist_only = None;
    args.start_time = Some(100);
    reg.update_mint_schedule(true, &args).unwrap();
    let schedules = reg.get_mint_schedules();
    let early = schedules.iter().find(|s| s.name == "Early Bird").unwrap();
    assert!(early.active);
    assert!(!early.whitelist_only);
    assert_eq!(early.start_time, Some(100));
    assert_eq!(early.bundle_prices.len(), 1);
    assert_eq!(early.bundle_prices[0].quantity, 2);
}

#[test]
fn schedule_upsert_validates() {
    let mut reg = Registry::new();
    let err = reg.update_mint_schedule(false, &schedule_args("X", vec![])).unwrap_err();
    assert_eq!(err, "Unauthorized: Only admins can update mint schedules");
    let err = reg.update_mint_schedule(true, &schedule_args("", vec![])).unwrap_err();
    assert_eq!(err, "Schedule name cannot be empty");
    let mut args = schedule_args("X", vec![]);
    args.start_time = Some(10);
    args.end_time = Some(10);
    let err = reg.update_mint_schedule(true, &args).unwrap_err();
    assert_eq!(err, "End time must be after start time");
    // A range that only becomes invalid against the stored start is also
    // rejected: the schedule keeps its old window.
    let mut args = schedule_args("Late", vec![]);
    args.start_time = Some(100);
    reg.update_mint_schedule(true, &args).unwrap();
    let mut args = schedule_args("Late", vec![]);
    args.end_time = Some(50);
    let err = reg.update_mint_schedule(true, &args).unwrap_err();
    assert_eq!(err, "End time must be after start time");
    let late = reg.get_mint_schedules().into_iter().find(|s| s.name == "Late").unwrap();
    assert_eq!(late.start_time, Some(100));
    assert_eq!(late.end_time, None);
}

#[test]
fn schedule_removal() {
    let mut reg = Registry::new();
    let err = reg.remove_mint_schedule(false, &"Standard".to_string()).unwrap_err();
    assert_eq!(err, "Unauthorized: Only admins can remove mint schedules");
    let err = reg.remove_mint_schedule(true, &"".to_string()).unwrap_err();
    assert_eq!(err, "Schedule name cannot be empty");
    assert!(reg.remove_mint_schedule(true, &"Standard".to_string()).is_ok());
    assert_eq!(reg.get_mint_schedules().len(), 1);
    // A name that matches nothing is an error, and nothing changes.
    let err = reg.remove_mint_schedule(true, &"Standard".to_string()).unwrap_err();
    assert_eq!(err, "No schedule with name 'Standard' found");
    assert_eq!(reg.get_mint_schedules().len(), 1);
}

#[test]
fn available_bundles_follow_audience_and_clock() {
    let mut reg = Registry::new();
    let mut args = update_args();
    args.pricing_enabled = Some(true);
    reg.update_collection_details(true, args).unwrap();
    let mut open = schedule_args("Open", vec![(1, 10)]);
    open.start_time = Some(100);
    open.end_time = Some(200);
    reg.update_mint_schedule(true, &open).unwrap();
    let mut vip = schedule_args("VIP", vec![(1, 5)]);
    vip.whitelist_only = Some(true);
    reg.update_mint_schedule(true, &vip).unwrap();

    let names = |bundles: Vec<(MintSchedule, Vec<nft_registry::BundlePrice>)>| {
        bundles.into_iter().map(|(s, _)| s.name).collect::<Vec<_>>()
    };
    assert_eq!(names(reg.get_available_bundles(false, 150)), vec!["Open"]);
    assert_eq!(names(reg.get_available_bundles(true, 150)), vec!["Open", "VIP"]);
    assert_eq!(names(reg.get_available_bundles(false, 250)), Vec::<String>::new());
}

#[test]
fn available_bundles_empty_while_pricing_disabled() {
    let mut reg = Registry::new();
    let mut sched = schedule_args("Open", vec![(1, 10)]);
    sched.active = Some(true);
    reg.update_mint_schedule(true, &sched).unwrap();
    assert!(reg.get_available_bundles(false, 0).is_empty());
}

#[test]
fn minting_active_follows_flags_and_windows() {
    let mut reg = Registry::new();
    // The default schedules are unbounded but inactive: nothing is open.
    let (public_open, whitelist_open, at) = reg.is_minting_active(42);
    assert!(!public_open && !whitelist_open);
    assert_eq!(at, 42);
    // Activating the open-to-everyone schedule opens public minting only.
    let mut standard = schedule_args("Standard", vec![]);
    standard.active = Some(true);
    reg.update_mint_schedule(true, &standard).unwrap();
    let (public_open, whitelist_open, _) = reg.is_minting_active(42);
    assert!(public_open && !whitelist_open);
    // Activating the whitelist-only schedule opens whitelist minting too.
    let mut vip = schedule_args("Whitelist", vec![]);
    vip.active = Some(true);
    vip.whitelist_only = Some(true);
    reg.update_mint_schedule(true, &vip).unwrap();
    let (public_open, whitelist_open, _) = reg.is_minting_active(42);
    assert!(public_open && whitelist_open);
    // An active schedule whose window is in the future opens nothing.
    let mut reg = Registry::new();
    let mut later = schedule_args("Later", vec![]);
    later.active = Some(true);
    later.start_time = Some(1000);
    reg.update_mint_schedule(true, &later).unwrap();
    let (public_open, whitelist_open, _) = reg.is_minting_active(999);
    assert!(!public_open && !whitelist_open);
    let (public_open, _, _) = reg.is_minting_active(1000);
    assert!(public_open);
}

#[test]
fn collection_metadata_reports_configuration() {
    let mut reg = registry_with_pricing(vec![(1, 0)]);
    mint_to(&mut reg, 1, 5);
    let pairs = reg.icrc7_collection_metadata("the-owners".to_string());
    let find = |key: &str| {
        pairs
            .iter()
            .find(|(k, _)| k == key)
            .map(|(_, v)| format!("{:?}", v))
    };
    assert_eq!(find("icrc7:name"), Some("Text(\"ICRC-37+ NFT\")".to_string()));
    assert_eq!(find("icrc7:total_supply"), Some("Nat(1)".to_string()));
    assert_eq!(find("max_supply"), Some("Nat(1000000)".to_string()));
    assert_eq!(find("owner"), Some("Text(\"the-owners\")".to_string()));
    assert_eq!(pairs.last().unwrap().0, "owner");
}

#[test]
fn token_metadata_and_records() {
    let mut reg = registry_with_pricing(vec![(1, 0)]);
    let id = reg
        .mint(ident(1), ident(CANISTER), false, 5, &MintArgs { asset_id: "ast-1".to_string() })
        .unwrap();
    let metadata = reg.icrc7_token_metadata(&vec![id, 42]);
    assert!(metadata[0].is_some());
    assert!(metadata[1].is_none());
    let record = reg.get_nft(id).unwrap();
    assert_eq!(record.token_id, id);
    assert_eq!(record.owner, ident(1));
    assert_eq!(record.asset_id, "ast-1");
    assert_eq!(record.created_at, 5);
    assert!(record.transfer_history.is_empty());
    assert!(reg.get_nft(42).is_none());
    let mine = reg.get_user_nfts(ident(1));
    assert_eq!(mine.len(), 1);
    assert_eq!(mine[0].token_id, id);
    // The mint was recorded with the generated operation text.
    let tx = reg.icrc3_get_transaction(0).unwrap();
    assert_eq!(tx.kind, "mint");
    assert_eq!(tx.operation, "Minted token 1 with asset ast-1");
    assert_eq!(tx.from, ident(CANISTER));
    assert_eq!(tx.to, ident(1));
}

#[test]
fn archives_start_empty() {
    let reg = Registry::new();
    assert!(reg.icrc3_get_archives().is_empty());
}

#[test]
fn query_aliases_agree() {
    let reg = Registry::new();
    let info = reg.get_collection_info("x".to_string());
    let metadata = reg.icrc7_collection_metadata("x".to_string());
    assert_eq!(info.len(), metadata.len());
    let frames = reg.get_minting_timeframes();
    let schedules = reg.get_mint_schedules();
    assert_eq!(frames.len(), schedules.len());
    assert_eq!(frames[0].name, schedules[0].name);
}

#[test]
fn anonymous_identity_is_handle_zero() {
    assert_eq!(Identity::anonymous().id, 0);
    assert_eq!(Identity::new(0), Identity::anonymous());
}

#[test]
fn upload_record_names_the_key() {
    let mut reg = Registry::new();
    let id = reg.record_upload(ident(3), ident(CANISTER), &"logo.svg".to_string(), 88);
    assert_eq!(id, 0);
    let tx = reg.icrc3_get_transaction(0).unwrap();
    assert_eq!(tx.kind, "upload");
    assert_eq!(tx.operation, "upload_file:logo.svg");
    assert_eq!(tx.token_id, 0);
}
