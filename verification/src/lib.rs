//! A non-fungible-token registry: token ownership with a consistent
//! per-owner index, delegated-transfer approvals with expiry, an append-only
//! transaction ledger, and a time- and audience-gated mint pricing engine.
//!
//! All state lives in plain data structures and every operation is a pure
//! function of the state and the values the host hands in (the caller's
//! identity, the current time, ACL membership); the host shell performs the
//! actual I/O and feeds those values in.

mod acl;
mod approvals;
mod numtext;
mod registry;
mod codec;
mod ledger;
mod pricing;
mod store;
mod types;

pub use acl::Acl;
pub use acl::Admin;
pub use acl::AdminType;
pub use approvals::Approvals;
pub use approvals::CollectionApprovalEntry;
pub use approvals::TokenApprovalEntry;
pub use approvals::lemma_is_approved_antitone;
pub use approvals::spec_collection_approval;
pub use approvals::spec_token_approval;
pub use approvals::spec_valid_at;
pub use approvals::lemma_token_approval_expiry;
pub use codec::base64_decode;
pub use codec::decode_base64;
pub use codec::decode_hex;
pub use codec::is_base64;
pub use codec::is_hex_encoded;
pub use ledger::GetTransactionsRequest;
pub use ledger::GetTransactionsResponse;
pub use ledger::Transaction;
pub use ledger::TransactionLog;
pub use ledger::lemma_transaction_ids_gapless;
pub use numtext::u64_to_dec;
pub use pricing::best_qualifying_price;
pub use pricing::lemma_best_price_minimum;
pub use pricing::lemma_best_tier_largest;
pub use registry::ApprovalArgs;
pub use registry::ApprovalCollectionArgs;
pub use registry::MintArgs;
pub use registry::MintBundleArgs;
pub use registry::MintError;
pub use registry::ProtocolState;
pub use registry::Registry;
pub use registry::lemma_collection_grant_outlives_transfer;
pub use registry::lemma_delegated_transfer_consumed;
pub use registry::approve_token_fold;
pub use registry::approve_token_step;
pub use registry::collection_grants_of;
pub use registry::grant_live;
pub use registry::memo_view;
pub use registry::moved_token;
pub use registry::spec_public_minting_open;
pub use registry::spec_whitelist_minting_open;
pub use registry::state_approved;
pub use registry::token_grants_of;
pub use registry::transfer_fold;
pub use registry::transfer_from_fold;
pub use registry::transfer_from_step;
pub use registry::transfer_step;
pub use registry::SetStandardPricesArgs;
pub use registry::TransferArgs;
pub use registry::TransferFromArgs;
pub use registry::UpdateCollectionDetailsArgs;
pub use registry::UpdateMintScheduleArgs;
pub use pricing::schedule_qualifies;
pub use pricing::spec_best_price;
pub use pricing::spec_best_tier;
pub use pricing::spec_bundle_count;
pub use pricing::spec_qualifies;
pub use pricing::spec_qualifying;
pub use pricing::spec_schedule_price;
pub use pricing::spec_tier_eligible;
pub use pricing::spec_tier_total;
pub use pricing::spec_time_ok;
pub use store::OwnerEntry;
pub use store::TokenMetadata;
pub use store::TokenRecord;
pub use store::TokenStore;
pub use store::lemma_ownership_exclusive;
pub use store::all_token_ids;
pub use store::owned_of;
pub use store::lemma_page_is_filter_prefix;
pub use store::spec_beyond_cursor;
pub use store::spec_page;
pub use store::strictly_sorted;
pub use types::Account;
pub use types::ApprovalInfo;
pub use types::ArchiveInfo;
pub use types::BundlePrice;
pub use types::CollectionDetails;
pub use types::Identity;
pub use types::MintSchedule;
pub use types::PriceType;
pub use types::Standard;
pub use types::TransferError;
pub use types::TransferRecord;
pub use types::Value;
