//! The transfer/mint protocol and the collection configuration.
//!
//! The registry owns the whole application state: the ledger store, the
//! approval engine, the transaction ledger and the collection details. Each
//! operation is atomic per call. Batch operations commit their requests
//! independently in array order: one request's failure neither blocks nor
//! rolls back its siblings, and the result is a parallel array of
//! per-request outcomes.

use vstd::prelude::*;

use crate::approvals::Approvals;
use crate::approvals::spec_collection_approval;
use crate::approvals::spec_token_approval;
use crate::approvals::spec_valid_at;
use crate::ledger::TransactionLog;
use crate::ledger::TransactionView;
use crate::numtext::spec_dec;
use crate::numtext::u64_to_dec;
use crate::pricing::any_schedule_qualifies;
use crate::pricing::best_qualifying_price;
use crate::pricing::spec_best_price;
use crate::pricing::spec_qualifies;
use crate::pricing::spec_qualifying;
use crate::pricing::spec_time_ok;
use crate::store::TokenMetadata;
use crate::store::TokenMetadataView;
use crate::store::TokenRecordView;
use crate::store::TokenStore;
use crate::store::lemma_owned_ids_valid;
use crate::store::lemma_owned_len_bound;
use crate::store::lemma_store_len_bound;
use crate::types::Account;
use crate::types::ApprovalInfo;
use crate::types::ArchiveInfo;
use crate::types::BundlePrice;
use crate::types::CollectionDetails;
use crate::types::Identity;
use crate::types::MintSchedule;
use crate::types::Standard;
use crate::types::TransferError;
use crate::types::TransferRecord;
use crate::types::Value;
use crate::types::ValueView;
use vstd::pervasive::VecAdditionalExecFns;
use vstd::pervasive::unreached;

verus! {

/// The most items one batch query may name.
pub const MAX_QUERY_BATCH_SIZE: u16 = 100;

/// The most requests one mutating batch may carry.
pub const MAX_UPDATE_BATCH_SIZE: u16 = 20;

/// The page size a listing query gets when it names none.
pub const DEFAULT_TAKE_VALUE: u64 = 10;

/// The most ids one listing query returns.
pub const MAX_TAKE_VALUE: u64 = 100;

/// One direct-transfer request.
#[derive(Debug)]
pub struct TransferArgs {
    pub from_subaccount: Option<Vec<u8>>,
    pub to: Account,
    pub token_id: u64,
    pub memo: Option<Vec<u8>>,
    /// The settlement time the caller asks to record; the current time when
    /// absent.
    pub created_at_time: Option<u64>,
}

/// One token-approval request.
#[derive(Debug)]
pub struct ApprovalArgs {
    pub from_subaccount: Option<Vec<u8>>,
    pub spender: Account,
    pub token_id: u64,
    pub expires_at: Option<u64>,
    pub memo: Option<Vec<u8>>,
    pub created_at_time: Option<u64>,
}

/// A collection-approval request.
#[derive(Debug)]
pub struct ApprovalCollectionArgs {
    pub from_subaccount: Option<Vec<u8>>,
    pub spender: Account,
    pub expires_at: Option<u64>,
    pub memo: Option<Vec<u8>>,
    pub created_at_time: Option<u64>,
}

/// One delegated-transfer request.
#[derive(Debug)]
pub struct TransferFromArgs {
    pub spender_subaccount: Option<Vec<u8>>,
    pub from: Account,
    pub to: Account,
    pub token_id: u64,
    pub memo: Option<Vec<u8>>,
    pub created_at_time: Option<u64>,
}

/// A single-token mint request.
#[derive(Debug)]
pub struct MintArgs {
    pub asset_id: String,
}

/// A bundle mint request.
#[derive(Debug)]
pub struct MintBundleArgs {
    pub quantity: u64,
    pub asset_ids: Vec<String>,
}

/// Bundle price lists for the two audiences, as one update.
#[derive(Debug)]
pub struct SetStandardPricesArgs {
    pub standard_bundles: Vec<BundlePrice>,
    pub whitelist_bundles: Vec<BundlePrice>,
}

/// A partial update of the collection configuration.
#[derive(Debug)]
pub struct UpdateCollectionDetailsArgs {
    pub name: Option<String>,
    pub symbol: Option<String>,
    pub description: Option<String>,
    pub max_supply: Option<u64>,
    pub base_url: Option<String>,
    pub logo: Option<String>,
    pub pricing_enabled: Option<bool>,
}

/// An upsert of one named mint schedule.
#[derive(Debug)]
pub struct UpdateMintScheduleArgs {
    pub name: String,
    pub bundle_prices: Vec<BundlePrice>,
    pub start_time: Option<u64>,
    pub end_time: Option<u64>,
    pub active: Option<bool>,
    pub whitelist_only: Option<bool>,
}

/// The typed failures of minting and pricing.
#[derive(Clone, Copy, Debug, PartialEq, Eq, Structural)]
pub enum MintError {
    /// Pricing (and with it minting) is switched off.
    NotEnabled,
    /// A bundle of zero tokens was requested.
    ZeroQuantity,
    /// No schedule is open to this caller at this moment.
    NoActiveSchedule,
    /// The supply cap is already met (single-token mint).
    SupplyReached,
    /// The supply cap leaves fewer than the requested tokens; `left` is the
    /// headroom that remains.
    SupplyExhausted { left: u64 },
    /// No qualifying schedule has a tier usable for this quantity.
    NoPrice { quantity: u64 },
}

/// The protocol-visible state: the token records, both grant stores as maps,
/// and the ledger.
pub struct ProtocolState {
    pub toks: Seq<TokenRecordView>,
    pub token_grants: Map<(u64, Identity), ApprovalInfo>,
    pub collection_grants: Map<(Identity, Identity), ApprovalInfo>,
    pub log: Seq<TransactionView>,
}

/// The token-scoped grant store as a map.
pub open spec fn token_grants_of(s: Seq<crate::approvals::TokenApprovalEntry>) -> Map<
    (u64, Identity),
    ApprovalInfo,
> {
    Map::new(
        |k: (u64, Identity)| spec_token_approval(s, k.0, k.1) is Some,
        |k: (u64, Identity)| spec_token_approval(s, k.0, k.1)->Some_0,
    )
}

/// The collection-scoped grant store as a map.
pub open spec fn collection_grants_of(s: Seq<crate::approvals::CollectionApprovalEntry>) -> Map<
    (Identity, Identity),
    ApprovalInfo,
> {
    Map::new(
        |k: (Identity, Identity)| spec_collection_approval(s, k.0, k.1) is Some,
        |k: (Identity, Identity)| spec_collection_approval(s, k.0, k.1)->Some_0,
    )
}

/// A grant looked up in a map is live at `now`.
pub open spec fn grant_live<K>(grants: Map<K, ApprovalInfo>, key: K, now: u64) -> bool {
    grants.dom().contains(key) && spec_valid_at(grants[key], now)
}

/// The spender may move the token away from `owner` at `now`.
pub open spec fn state_approved(
    st: ProtocolState,
    spender: Identity,
    owner: Identity,
    token_id: u64,
    now: u64,
) -> bool {
    grant_live(st.token_grants, (token_id, spender), now) || grant_live(
        st.collection_grants,
        (owner, spender),
        now,
    )
}

/// The supply headroom under an optional cap, saturating at zero.
pub open spec fn spec_supply_left(cap: Option<u64>, supply: int) -> u64 {
    match cap {
        Some(c) => if c >= supply {
            (c - supply) as u64
        } else {
            0
        },
        None => 0,
    }
}

/// The memo bytes of a request, as the ledger records them.
pub open spec fn memo_view(memo: Option<Vec<u8>>) -> Option<Seq<u8>> {
    match memo {
        None => None,
        Some(m) => Some(m@),
    }
}

/// The token record after a move to `to` at `timestamp`.
pub open spec fn moved_token(t: TokenRecordView, to: Identity, timestamp: u64) -> TokenRecordView {
    TokenRecordView {
        token_id: t.token_id,
        owner: to,
        asset_id: t.asset_id,
        metadata: t.metadata,
        created_at: t.created_at,
        transfer_history: t.transfer_history.push(
            TransferRecord { from: t.owner, to, timestamp },
        ),
    }
}

/// What one direct-transfer request does to the state, and its outcome: the
/// token must exist and the caller must own it; on success the token moves,
/// and a "transfer" record is appended.
pub open spec fn transfer_step(
    st: ProtocolState,
    caller: Identity,
    arg: TransferArgs,
    now: u64,
) -> (ProtocolState, Result<u64, TransferError>) {
    let tid = arg.token_id;
    if !(1 <= tid <= st.toks.len()) {
        (st, Err(TransferError::NotFound))
    } else if st.toks[tid - 1].owner != caller {
        (st, Err(TransferError::Unauthorized))
    } else {
        let ts = match arg.created_at_time {
            Some(t) => t,
            None => now,
        };
        let tx = TransactionView {
            kind: "transfer"@,
            timestamp: now,
            token_id: tid,
            from: caller,
            to: arg.to.owner,
            memo: memo_view(arg.memo),
            operation: "standard_transfer"@,
            transaction_id: st.log.len() as u64,
        };
        (
            ProtocolState {
                toks: st.toks.update(tid - 1, moved_token(st.toks[tid - 1], arg.to.owner, ts)),
                token_grants: st.token_grants,
                collection_grants: st.collection_grants,
                log: st.log.push(tx),
            },
            Ok(ts),
        )
    }
}

/// A batch of direct transfers, committed one by one in array order.
pub open spec fn transfer_fold(
    st: ProtocolState,
    caller: Identity,
    args: Seq<TransferArgs>,
    now: u64,
) -> (ProtocolState, Seq<Result<u64, TransferError>>)
    decreases args.len(),
{
    if args.len() == 0 {
        (st, Seq::empty())
    } else {
        let (st1, rs) = transfer_fold(st, caller, args.drop_last(), now);
        let (st2, r) = transfer_step(st1, caller, args.last(), now);
        (st2, rs.push(r))
    }
}

/// A copy of a request's memo bytes.
fn clone_memo(memo: &Option<Vec<u8>>) -> (r: Option<Vec<u8>>)
    ensures
        memo_view(r) == memo_view(*memo),
{
    match memo {
        None => None,
        Some(m) => {
            let mut copy: Vec<u8> = Vec::new();
            let mut i: usize = 0;
            while i < m.len()
                invariant
                    0 <= i <= m@.len(),
                    copy@ == m@.take(i as int),
                decreases m@.len() - i,
            {
                copy.push(m[i]);
                assert(copy@ =~= m@.take(i + 1));
                i += 1;
            }
            assert(copy@ =~= m@);
            Some(copy)
        },
    }
}

/// The registry root: the whole application state of the token collection.
#[derive(Debug)]
pub struct Registry {
    pub store: TokenStore,
    pub approvals: Approvals,
    pub log: TransactionLog,
    pub details: CollectionDetails,
    pub archives: Vec<ArchiveInfo>,
}

/// Both time bounds set means a strictly later end.
pub open spec fn schedule_range_ok(s: crate::types::MintScheduleView) -> bool {
    match (s.start_time, s.end_time) {
        (Some(start), Some(end)) => end > start,
        _ => true,
    }
}

/// Collection configuration invariant: schedule names are unique and every
/// schedule's time range is well-formed.
pub open spec fn details_wf(d: crate::types::CollectionDetailsView) -> bool {
    &&& forall|j: int, k: int|
        0 <= j < k < d.mint_schedules.len() ==> (#[trigger] d.mint_schedules[j]).name != (
        #[trigger] d.mint_schedules[k]).name
    &&& forall|j: int|
        0 <= j < d.mint_schedules.len() ==> schedule_range_ok(#[trigger] d.mint_schedules[j])
}

impl Registry {
    /// The registry invariant: each component is well-formed.
    pub open spec fn wf(self) -> bool {
        &&& self.store.wf()
        &&& self.approvals.wf()
        &&& self.log.wf()
        &&& details_wf(self.details.deep_view())
    }

    /// The protocol-visible abstraction of the state.
    pub open spec fn abs(self) -> ProtocolState {
        ProtocolState {
            toks: self.store.toks(),
            token_grants: token_grants_of(self.approvals.token_approvals@),
            collection_grants: collection_grants_of(self.approvals.collection_approvals@),
            log: self.log.log(),
        }
    }

    /// One direct transfer: the request must name an issued token that the
    /// caller owns; on success the token moves to the stated account at the
    /// requested (or current) settlement time and a ledger record is
    /// appended.
    fn transfer_one(&mut self, caller: Identity, now: u64, arg: &TransferArgs) -> (r: Result<
        u64,
        TransferError,
    >)
        requires
            old(self).wf(),
            old(self).log.log().len() < u64::MAX,
        ensures
            final (self).wf(),
            final (self).log.log().len() <= old(self).log.log().len() + 1,
            final (self).details == old(self).details,
            final (self).archives == old(self).archives,
            ({
                let (st, res) = transfer_step(old(self).abs(), caller, *arg, now);
                final (self).abs() == st && r == res
            }),
    {
        let tid = arg.token_id;
        match self.store.get_owner(tid) {
            None => Err(TransferError::NotFound),
            Some(owner) => {
                if owner.id != caller.id {
                    return Err(TransferError::Unauthorized);
                }
                let ts = match arg.created_at_time {
                    Some(t) => t,
                    None => now,
                };
                self.store.set_owner(tid, arg.to.owner, ts);
                let memo = clone_memo(&arg.memo);
                self.log.record(
                    "transfer".to_owned(),
                    tid,
                    caller,
                    arg.to.owner,
                    memo,
                    "standard_transfer".to_owned(),
                    now,
                );
                proof {
                    let (st, res) = transfer_step(old(self).abs(), caller, *arg, now);
                    assert(self.abs().toks =~= st.toks);
                    assert(self.abs().log =~= st.log);
                    assert(self.abs() == st);
                }
                Ok(ts)
            },
        }
    }

    /// A batch of direct transfers, one outcome per request, committed
    /// independently in array order: a failed request neither blocks nor
    /// rolls back its siblings.
    pub fn icrc7_transfer(&mut self, caller: Identity, now: u64, args: &Vec<TransferArgs>) -> (r:
        Vec<Result<u64, TransferError>>)
        requires
            old(self).wf(),
            old(self).log.log().len() + args@.len() <= u64::MAX,
        ensures
            final (self).wf(),
            final (self).details == old(self).details,
            final (self).archives == old(self).archives,
            r@.len() == args@.len(),
            ({
                let (st, rs) = transfer_fold(old(self).abs(), caller, args@, now);
                final (self).abs() == st && r@ == rs
            }),
    {
        let ghost st0 = self.abs();
        let mut results: Vec<Result<u64, TransferError>> = Vec::new();
        let mut i: usize = 0;
        proof {
            assert(transfer_fold(st0, caller, args@.take(0), now) == (st0, Seq::<
                Result<u64, TransferError>,
            >::empty()));
        }
        while i < args.len()
            invariant
                0 <= i <= args@.len(),
                self.wf(),
                st0 == old(self).abs(),
                self.log.log().len() <= old(self).log.log().len() + i,
                old(self).log.log().len() + args@.len() <= u64::MAX,
                self.details == old(self).details,
                self.archives == old(self).archives,
                results@.len() == i,
                ({
                    let (st, rs) = transfer_fold(st0, caller, args@.take(i as int), now);
                    self.abs() == st && results@ == rs
                }),
            decreases args@.len() - i,
        {
            assert(args@.take(i + 1).drop_last() =~= args@.take(i as int));
            assert(args@.take(i + 1).last() == args@[i as int]);
            let r = self.transfer_one(caller, now, &args[i]);
            results.push(r);
            i += 1;
        }
        assert(args@.take(args@.len() as int) =~= args@);
        results
    }

    /// One token approval: the request must name an issued token that the
    /// caller owns; on success the grant for (token, spender) is stored or
    /// overwritten and an "approve" record is appended.
    fn approve_token_one(&mut self, caller: Identity, now: u64, arg: &ApprovalArgs) -> (r: Result<
        u64,
        TransferError,
    >)
        requires
            old(self).wf(),
            old(self).log.log().len() < u64::MAX,
        ensures
            final (self).wf(),
            final (self).log.log().len() <= old(self).log.log().len() + 1,
            final (self).details == old(self).details,
            final (self).archives == old(self).archives,
            ({
                let (st, res) = approve_token_step(old(self).abs(), caller, *arg, now);
                final (self).abs() == st && r == res
            }),
    {
        let tid = arg.token_id;
        match self.store.get_owner(tid) {
            None => Err(TransferError::NotFound),
            Some(owner) => {
                if owner.id != caller.id {
                    return Err(TransferError::Unauthorized);
                }
                let spender = arg.spender.owner;
                let info = ApprovalInfo {
                    spender,
                    token_id: tid,
                    expires_at: arg.expires_at,
                    created_at: now,
                };
                let ghost a0 = self.approvals;
                self.approvals.set_token_approval(tid, spender, info);
                proof {
                    lemma_token_grants_insert(a0, self.approvals, tid, spender, info);
                }
                let memo = clone_memo(&arg.memo);
                self.log.record(
                    "approve".to_owned(),
                    tid,
                    caller,
                    spender,
                    memo,
                    "token_approval".to_owned(),
                    now,
                );
                proof {
                    let (st, res) = approve_token_step(old(self).abs(), caller, *arg, now);
                    assert(self.abs().log =~= st.log);
                    assert(self.abs().toks =~= st.toks);
                    assert(self.abs() == st);
                }
                Ok(now)
            },
        }
    }

    /// A batch of token approvals, one outcome per request, committed
    /// independently in array order.
    pub fn icrc37_approve_tokens(
        &mut self,
        caller: Identity,
        now: u64,
        args: &Vec<ApprovalArgs>,
    ) -> (r: Vec<Result<u64, TransferError>>)
        requires
            old(self).wf(),
            old(self).log.log().len() + args@.len() <= u64::MAX,
        ensures
            final (self).wf(),
            final (self).details == old(self).details,
            final (self).archives == old(self).archives,
            r@.len() == args@.len(),
            ({
                let (st, rs) = approve_token_fold(old(self).abs(), caller, args@, now);
                final (self).abs() == st && r@ == rs
            }),
    {
        let ghost st0 = self.abs();
        let mut results: Vec<Result<u64, TransferError>> = Vec::new();
        let mut i: usize = 0;
        proof {
            assert(approve_token_fold(st0, caller, args@.take(0), now) == (st0, Seq::<
                Result<u64, TransferError>,
            >::empty()));
        }
        while i < args.len()
            invariant
                0 <= i <= args@.len(),
                self.wf(),
                st0 == old(self).abs(),
                self.log.log().len() <= old(self).log.log().len() + i,
                old(self).log.log().len() + args@.len() <= u64::MAX,
                self.details == old(self).details,
                self.archives == old(self).archives,
                results@.len() == i,
                ({
                    let (st, rs) = approve_token_fold(st0, caller, args@.take(i as int), now);
                    self.abs() == st && results@ == rs
                }),
            decreases args@.len() - i,
        {
            assert(args@.take(i + 1).drop_last() =~= args@.take(i as int));
            assert(args@.take(i + 1).last() == args@[i as int]);
            let r = self.approve_token_one(caller, now, &args[i]);
            results.push(r);
            i += 1;
        }
        assert(args@.take(args@.len() as int) =~= args@);
        results
    }

    /// A collection-wide approval: rejected as a self-approval when the
    /// caller names itself; otherwise the grant for (caller, spender) is
    /// stored or overwritten and an "approve" record with subject 0 is
    /// appended.
    pub fn icrc37_approve_collection(
        &mut self,
        caller: Identity,
        now: u64,
        args: &ApprovalCollectionArgs,
    ) -> (r: Result<u64, TransferError>)
        requires
            old(self).wf(),
            old(self).log.log().len() < u64::MAX,
        ensures
            final (self).wf(),
            final (self).details == old(self).details,
            final (self).archives == old(self).archives,
            caller == args.spender.owner ==> {
                &&& final (self).abs() == old(self).abs()
                &&& r matches Err(e) && (e matches TransferError::GenericError {
                    error_code,
                    message,
                } && error_code == 1 && message@ == "Self-approval is unnecessary"@)
            },
            caller != args.spender.owner ==> {
                let info = ApprovalInfo {
                    spender: args.spender.owner,
                    token_id: 0,
                    expires_at: args.expires_at,
                    created_at: now,
                };
                let tx = TransactionView {
                    kind: "approve"@,
                    timestamp: now,
                    token_id: 0,
                    from: caller,
                    to: args.spender.owner,
                    memo: memo_view(args.memo),
                    operation: "collection_approval"@,
                    transaction_id: old(self).abs().log.len() as u64,
                };
                &&& r == Ok::<u64, TransferError>(now)
                &&& final (self).abs() == (ProtocolState {
                    collection_grants: old(self).abs().collection_grants.insert(
                        (caller, args.spender.owner),
                        info,
                    ),
                    log: old(self).abs().log.push(tx),
                    ..old(self).abs()
                })
            },
    {
        let spender = args.spender.owner;
        if caller.id == spender.id {
            return Err(
                TransferError::GenericError {
                    error_code: 1,
                    message: "Self-approval is unnecessary".to_owned(),
                },
            );
        }
        let info = ApprovalInfo { spender, token_id: 0, expires_at: args.expires_at, created_at: now };
        let ghost a0 = self.approvals;
        self.approvals.set_collection_approval(caller, spender, info);
        proof {
            lemma_collection_grants_insert(a0, self.approvals, caller, spender, info);
        }
        let memo = clone_memo(&args.memo);
        self.log.record(
            "approve".to_owned(),
            0,
            caller,
            spender,
            memo,
            "collection_approval".to_owned(),
            now,
        );
        proof {
            assert(self.abs().log =~= old(self).abs().log.push(
                TransactionView {
                    kind: "approve"@,
                    timestamp: now,
                    token_id: 0,
                    from: caller,
                    to: spender,
                    memo: memo_view(args.memo),
                    operation: "collection_approval"@,
                    transaction_id: old(self).abs().log.len() as u64,
                },
            ));
            assert(self.abs().toks =~= old(self).abs().toks);
        }
        Ok(now)
    }

    /// Is the spender allowed, right now, to move this token away from the
    /// stated owner? True exactly when a live token-scoped grant for (token,
    /// spender) or a live collection-scoped grant for (owner, spender)
    /// exists.
    pub fn icrc37_is_approved(&self, spender: &Account, from: &Account, token_id: u64, now: u64) -> (r:
        bool)
        requires
            self.wf(),
        ensures
            r == state_approved(self.abs(), spender.owner, from.owner, token_id, now),
    {
        let r = self.approvals.is_approved(spender.owner, from.owner, token_id, now);
        proof {
            lemma_state_approved_bridge(self.abs(), self.approvals, spender.owner, from.owner, token_id, now);
        }
        r
    }

    /// One delegated transfer: the token must exist, be owned by the stated
    /// source, and the caller must hold a live grant; on success the token
    /// moves, the token-scoped grant for (token, caller) is consumed, and a
    /// "transfer" record tagged as delegated is appended.
    fn transfer_from_one(&mut self, caller: Identity, now: u64, arg: &TransferFromArgs) -> (r:
        Result<u64, TransferError>)
        requires
            old(self).wf(),
            old(self).log.log().len() < u64::MAX,
        ensures
            final (self).wf(),
            final (self).log.log().len() <= old(self).log.log().len() + 1,
            final (self).details == old(self).details,
            final (self).archives == old(self).archives,
            ({
                let (st, res) = transfer_from_step(old(self).abs(), caller, *arg, now);
                final (self).abs() == st && r == res
            }),
    {
        let tid = arg.token_id;
        match self.store.get_owner(tid) {
            None => Err(TransferError::NotFound),
            Some(owner) => {
                if owner.id != arg.from.owner.id {
                    return Err(TransferError::Unauthorized);
                }
                let approved = self.approvals.is_approved(caller, arg.from.owner, tid, now);
                proof {
                    lemma_state_approved_bridge(
                        self.abs(),
                        self.approvals,
                        caller,
                        arg.from.owner,
                        tid,
                        now,
                    );
                }
                if !approved {
                    return Err(TransferError::Unauthorized);
                }
                self.store.set_owner(tid, arg.to.owner, now);
                let ghost a0 = self.approvals;
                self.approvals.consume_token_approval(tid, caller);
                proof {
                    lemma_token_grants_remove(a0, self.approvals, tid, caller);
                }
                let memo = clone_memo(&arg.memo);
                self.log.record(
                    "transfer".to_owned(),
                    tid,
                    arg.from.owner,
                    arg.to.owner,
                    memo,
                    "transfer_from".to_owned(),
                    now,
                );
                proof {
                    let (st, res) = transfer_from_step(old(self).abs(), caller, *arg, now);
                    assert(self.abs().toks =~= st.toks);
                    assert(self.abs().log =~= st.log);
                    assert(self.abs() == st);
                }
                Ok(now)
            },
        }
    }

    /// A batch of delegated transfers, one outcome per request, committed
    /// independently in array order.
    pub fn icrc37_transfer_from(
        &mut self,
        caller: Identity,
        now: u64,
        args: &Vec<TransferFromArgs>,
    ) -> (r: Vec<Result<u64, TransferError>>)
        requires
            old(self).wf(),
            old(self).log.log().len() + args@.len() <= u64::MAX,
        ensures
            final (self).wf(),
            final (self).details == old(self).details,
            final (self).archives == old(self).archives,
            r@.len() == args@.len(),
            ({
                let (st, rs) = transfer_from_fold(old(self).abs(), caller, args@, now);
                final (self).abs() == st && r@ == rs
            }),
    {
        let ghost st0 = self.abs();
        let mut results: Vec<Result<u64, TransferError>> = Vec::new();
        let mut i: usize = 0;
        proof {
            assert(transfer_from_fold(st0, caller, args@.take(0), now) == (st0, Seq::<
                Result<u64, TransferError>,
            >::empty()));
        }
        while i < args.len()
            invariant
                0 <= i <= args@.len(),
                self.wf(),
                st0 == old(self).abs(),
                self.log.log().len() <= old(self).log.log().len() + i,
                old(self).log.log().len() + args@.len() <= u64::MAX,
                self.details == old(self).details,
                self.archives == old(self).archives,
                results@.len() == i,
                ({
                    let (st, rs) = transfer_from_fold(st0, caller, args@.take(i as int), now);
                    self.abs() == st && results@ == rs
                }),
            decreases args@.len() - i,
        {
            assert(args@.take(i + 1).drop_last() =~= args@.take(i as int));
            assert(args@.take(i + 1).last() == args@[i as int]);
            let r = self.transfer_from_one(caller, now, &args[i]);
            results.push(r);
            i += 1;
        }
        assert(args@.take(args@.len() as int) =~= args@);
        results
    }

    /// The supply headroom left under the cap, saturating at zero.
    fn supply_left(&self, cap: u64) -> (r: u64)
        requires
            self.wf(),
        ensures
            r == (if cap >= self.store.toks().len() {
                cap - self.store.toks().len()
            } else {
                0
            }),
    {
        proof {
            lemma_store_len_bound(self.store);
        }
        let minted = self.store.total_supply();
        if cap >= minted {
            cap - minted
        } else {
            0
        }
    }

    /// Mints one token to the caller from the named content asset. All
    /// preconditions are checked before any state changes: pricing must be
    /// enabled, a schedule must be open to the caller, the supply cap must
    /// leave room, and a qualifying schedule must price a single token. On
    /// success the new token's id is returned and a "mint" record is
    /// appended, with the host environment (`canister`) as its source.
    pub fn mint(
        &mut self,
        caller: Identity,
        canister: Identity,
        whitelisted: bool,
        now: u64,
        args: &MintArgs,
    ) -> (r: Result<u64, MintError>)
        requires
            old(self).wf(),
            old(self).log.log().len() < u64::MAX,
            old(self).store.toks().len() < u64::MAX,
        ensures
            final (self).wf(),
            final (self).details == old(self).details,
            final (self).archives == old(self).archives,
            ({
                let d = old(self).details.deep_view();
                let qualifying = spec_qualifying(d.mint_schedules, now, whitelisted);
                let supply = old(self).store.toks().len() as int;
                if !d.pricing_enabled {
                    r == Err::<u64, MintError>(MintError::NotEnabled) && final (self).abs() == old(
                        self,
                    ).abs()
                } else if qualifying.len() == 0 {
                    r == Err::<u64, MintError>(MintError::NoActiveSchedule) && final (self).abs()
                        == old(self).abs()
                } else if d.max_supply matches Some(cap) && supply >= cap {
                    r == Err::<u64, MintError>(MintError::SupplyReached) && final (self).abs()
                        == old(self).abs()
                } else if spec_best_price(qualifying, 1) is None {
                    r == Err::<u64, MintError>(MintError::NoPrice { quantity: 1 }) && final (
                    self).abs() == old(self).abs()
                } else {
                    let id = (supply + 1) as u64;
                    let tx = TransactionView {
                        kind: "mint"@,
                        timestamp: now,
                        token_id: id,
                        from: canister,
                        to: caller,
                        memo: None,
                        operation: "Minted token "@ + spec_dec(id as int) + " with asset "@
                            + args.asset_id@,
                        transaction_id: old(self).abs().log.len() as u64,
                    };
                    &&& r == Ok::<u64, MintError>(id)
                    &&& final (self).abs() == (ProtocolState {
                        toks: old(self).abs().toks.push(
                            TokenRecordView {
                                token_id: id,
                                owner: caller,
                                asset_id: args.asset_id@,
                                metadata: TokenMetadataView {
                                    name: Seq::empty(),
                                    description: Seq::empty(),
                                    image_url: Seq::empty(),
                                },
                                created_at: now,
                                transfer_history: Seq::empty(),
                            },
                        ),
                        log: old(self).abs().log.push(tx),
                        ..old(self).abs()
                    })
                }
            }),
    {
        if !self.details.pricing_enabled {
            return Err(MintError::NotEnabled);
        }
        if !any_schedule_qualifies(&self.details.mint_schedules, now, whitelisted) {
            return Err(MintError::NoActiveSchedule);
        }
        proof {
            lemma_store_len_bound(self.store);
        }
        let minted = self.store.total_supply();
        match self.details.max_supply {
            Some(cap) => {
                if minted >= cap {
                    return Err(MintError::SupplyReached);
                }
            },
            None => {},
        }
        let price = best_qualifying_price(&self.details.mint_schedules, 1, now, whitelisted);
        if price.is_none() {
            return Err(MintError::NoPrice { quantity: 1 });
        }
        let metadata = TokenMetadata {
            name: String::new(),
            description: String::new(),
            image_url: String::new(),
        };
        let asset_id = args.asset_id.clone();
        let ghost asset_view = args.asset_id@;
        let id = self.store.issue(caller, asset_id, metadata, now);
        let id_text = u64_to_dec(id);
        let mut operation = "Minted token ".to_owned();
        operation.append(id_text.as_str());
        operation.append(" with asset ");
        operation.append(args.asset_id.as_str());
        self.log.record("mint".to_owned(), id, canister, caller, None, operation, now);
        proof {
            assert(self.abs().toks =~= old(self).abs().toks.push(
                TokenRecordView {
                    token_id: id,
                    owner: caller,
                    asset_id: asset_view,
                    metadata: TokenMetadataView {
                        name: Seq::empty(),
                        description: Seq::empty(),
                        image_url: Seq::empty(),
                    },
                    created_at: now,
                    transfer_history: Seq::empty(),
                },
            ));
            assert(self.abs().log.last().operation =~= "Minted token "@ + spec_dec(id as int)
                + " with asset "@ + asset_view);
            assert(self.abs().log =~= old(self).abs().log.push(
                TransactionView {
                    kind: "mint"@,
                    timestamp: now,
                    token_id: id,
                    from: canister,
                    to: caller,
                    memo: None,
                    operation: "Minted token "@ + spec_dec(id as int) + " with asset "@
                        + asset_view,
                    transaction_id: old(self).abs().log.len() as u64,
                },
            ));
        }
        Ok(id)
    }

    /// Mints a bundle of `quantity` tokens to the caller, one per generated
    /// asset identifier. All preconditions are checked before any state
    /// changes; the whole bundle is recorded as one "mint_bundle" ledger
    /// record naming the first minted id.
    pub fn mint_bundle(
        &mut self,
        caller: Identity,
        canister: Identity,
        whitelisted: bool,
        now: u64,
        args: &MintBundleArgs,
        generated_asset_ids: &Vec<String>,
    ) -> (r: Result<Vec<u64>, MintError>)
        requires
            old(self).wf(),
            old(self).log.log().len() < u64::MAX,
            old(self).store.toks().len() + args.quantity <= u64::MAX,
            generated_asset_ids@.len() == args.quantity,
        ensures
            final (self).wf(),
            final (self).details == old(self).details,
            final (self).archives == old(self).archives,
            ({
                let d = old(self).details.deep_view();
                let qualifying = spec_qualifying(d.mint_schedules, now, whitelisted);
                let supply = old(self).store.toks().len() as int;
                let q = args.quantity;
                if q == 0 {
                    r == Err::<Vec<u64>, MintError>(MintError::ZeroQuantity) && final (self).abs()
                        == old(self).abs()
                } else if !d.pricing_enabled {
                    r == Err::<Vec<u64>, MintError>(MintError::NotEnabled) && final (self).abs()
                        == old(self).abs()
                } else if qualifying.len() == 0 {
                    r == Err::<Vec<u64>, MintError>(MintError::NoActiveSchedule) && final (
                    self).abs() == old(self).abs()
                } else if d.max_supply matches Some(cap) && supply + q > cap {
                    &&& r == Err::<Vec<u64>, MintError>(
                        MintError::SupplyExhausted { left: spec_supply_left(d.max_supply, supply) },
                    )
                    &&& final (self).abs() == old(self).abs()
                } else if spec_best_price(qualifying, q) is None {
                    r == Err::<Vec<u64>, MintError>(MintError::NoPrice { quantity: q }) && final (
                    self).abs() == old(self).abs()
                } else {
                    let first = (supply + 1) as u64;
                    let tx = TransactionView {
                        kind: "mint_bundle"@,
                        timestamp: now,
                        token_id: first,
                        from: canister,
                        to: caller,
                        memo: None,
                        operation: "Minted bundle of "@ + spec_dec(q as int) + " tokens"@,
                        transaction_id: old(self).abs().log.len() as u64,
                    };
                    &&& r matches Ok(ids)
                    &&& (r matches Ok(ids) ==> ids@ == Seq::new(
                        q as nat,
                        |k: int| (supply + 1 + k) as u64,
                    ))
                    &&& final (self).abs() == (ProtocolState {
                        toks: old(self).abs().toks + Seq::new(
                            q as nat,
                            |k: int|
                                TokenRecordView {
                                    token_id: (supply + 1 + k) as u64,
                                    owner: caller,
                                    asset_id: generated_asset_ids@[k]@,
                                    metadata: TokenMetadataView {
                                        name: Seq::empty(),
                                        description: Seq::empty(),
                                        image_url: Seq::empty(),
                                    },
                                    created_at: now,
                                    transfer_history: Seq::empty(),
                                },
                        ),
                        log: old(self).abs().log.push(tx),
                        ..old(self).abs()
                    })
                }
            }),
    {
        let quantity = args.quantity;
        if quantity == 0 {
            return Err(MintError::ZeroQuantity);
        }
        if !self.details.pricing_enabled {
            return Err(MintError::NotEnabled);
        }
        if !any_schedule_qualifies(&self.details.mint_schedules, now, whitelisted) {
            return Err(MintError::NoActiveSchedule);
        }
        proof {
            lemma_store_len_bound(self.store);
        }
        let minted = self.store.total_supply();
        match self.details.max_supply {
            Some(cap) => {
                if minted + quantity > cap {
                    return Err(MintError::SupplyExhausted { left: self.supply_left(cap) });
                }
            },
            None => {},
        }
        let price = best_qualifying_price(&self.details.mint_schedules, quantity, now, whitelisted);
        if price.is_none() {
            return Err(MintError::NoPrice { quantity });
        }
        let ghost supply = old(self).store.toks().len() as int;
        let mut token_ids: Vec<u64> = Vec::new();
        let mut k: usize = 0;
        proof {
            assert(self.abs().toks =~= old(self).abs().toks + Seq::new(
                0,
                |k: int|
                    TokenRecordView {
                        token_id: (supply + 1 + k) as u64,
                        owner: caller,
                        asset_id: generated_asset_ids@[k]@,
                        metadata: TokenMetadataView {
                            name: Seq::empty(),
                            description: Seq::empty(),
                            image_url: Seq::empty(),
                        },
                        created_at: now,
                        transfer_history: Seq::empty(),
                    },
            ));
            assert(token_ids@ =~= Seq::new(0, |k: int| (supply + 1 + k) as u64));
        }
        let n = generated_asset_ids.len();
        assert(n == quantity);
        while k < n
            invariant
                0 <= k <= quantity,
                quantity == args.quantity,
                n == quantity,
                generated_asset_ids@.len() == quantity,
                supply == old(self).store.toks().len() as int,
                supply + quantity <= u64::MAX,
                self.wf(),
                self.store.toks().len() == supply + k,
                self.log == old(self).log,
                self.approvals == old(self).approvals,
                self.details == old(self).details,
                self.archives == old(self).archives,
                old(self).log.log().len() < u64::MAX,
                token_ids@.len() == k,
                token_ids@ == Seq::new(k as nat, |j: int| (supply + 1 + j) as u64),
                self.abs().toks == old(self).abs().toks + Seq::new(
                    k as nat,
                    |j: int|
                        TokenRecordView {
                            token_id: (supply + 1 + j) as u64,
                            owner: caller,
                            asset_id: generated_asset_ids@[j]@,
                            metadata: TokenMetadataView {
                                name: Seq::empty(),
                                description: Seq::empty(),
                                image_url: Seq::empty(),
                            },
                            created_at: now,
                            transfer_history: Seq::empty(),
                        },
                ),
            decreases quantity - k,
        {
            let metadata = TokenMetadata {
                name: String::new(),
                description: String::new(),
                image_url: String::new(),
            };
            let asset_id = generated_asset_ids[k].clone();
            let id = self.store.issue(caller, asset_id, metadata, now);
            token_ids.push(id);
            proof {
                assert(token_ids@ =~= Seq::new((k + 1) as nat, |j: int| (supply + 1 + j) as u64));
                assert(self.abs().toks =~= old(self).abs().toks + Seq::new(
                    (k + 1) as nat,
                    |j: int|
                        TokenRecordView {
                            token_id: (supply + 1 + j) as u64,
                            owner: caller,
                            asset_id: generated_asset_ids@[j]@,
                            metadata: TokenMetadataView {
                                name: Seq::empty(),
                                description: Seq::empty(),
                                image_url: Seq::empty(),
                            },
                            created_at: now,
                            transfer_history: Seq::empty(),
                        },
                ));
            }
            k += 1;
        }
        let first_id = token_ids[0];
        let count_text = u64_to_dec(quantity);
        let mut operation = "Minted bundle of ".to_owned();
        operation.append(count_text.as_str());
        operation.append(" tokens");
        self.log.record(
            "mint_bundle".to_owned(),
            first_id,
            canister,
            caller,
            None,
            operation,
            now,
        );
        proof {
            assert(self.abs().log =~= old(self).abs().log.push(
                TransactionView {
                    kind: "mint_bundle"@,
                    timestamp: now,
                    token_id: (supply + 1) as u64,
                    from: canister,
                    to: caller,
                    memo: None,
                    operation: "Minted bundle of "@ + spec_dec(quantity as int) + " tokens"@,
                    transaction_id: old(self).abs().log.len() as u64,
                },
            ));
        }
        Ok(token_ids)
    }

    /// The price this caller would pay right now for `quantity` tokens, with
    /// each precondition's failure reported: pricing enabled, a schedule
    /// open, and a usable tier for the quantity.
    pub fn get_user_mint_price(&self, whitelisted: bool, quantity: u64, now: u64) -> (r: Result<
        u128,
        MintError,
    >)
        ensures
            ({
                let d = self.details.deep_view();
                let qualifying = spec_qualifying(d.mint_schedules, now, whitelisted);
                if !d.pricing_enabled {
                    r == Err::<u128, MintError>(MintError::NotEnabled)
                } else if qualifying.len() == 0 {
                    r == Err::<u128, MintError>(MintError::NoActiveSchedule)
                } else {
                    match spec_best_price(qualifying, quantity) {
                        None => r == Err::<u128, MintError>(MintError::NoPrice { quantity }),
                        Some(p) => r == Ok::<u128, MintError>(p as u128) && p >= 0,
                    }
                }
            }),
    {
        if !self.details.pricing_enabled {
            return Err(MintError::NotEnabled);
        }
        if !any_schedule_qualifies(&self.details.mint_schedules, now, whitelisted) {
            return Err(MintError::NoActiveSchedule);
        }
        match best_qualifying_price(&self.details.mint_schedules, quantity, now, whitelisted) {
            None => Err(MintError::NoPrice { quantity }),
            Some(p) => Ok(p),
        }
    }

    /// The position of the schedule with this name, if one exists.
    fn find_schedule(&self, name: &String) -> (r: Option<usize>)
        ensures
            match r {
                Some(j) => j < self.details.mint_schedules@.len()
                    && self.details.deep_view().mint_schedules[j as int].name == name@,
                None => forall|k: int|
                    0 <= k < self.details.deep_view().mint_schedules.len() ==> (
                    #[trigger] self.details.deep_view().mint_schedules[k]).name != name@,
            },
    {
        let ghost ms = self.details.deep_view().mint_schedules;
        let mut j: usize = 0;
        while j < self.details.mint_schedules.len()
            invariant
                0 <= j <= ms.len(),
                ms == self.details.deep_view().mint_schedules,
                ms.len() == self.details.mint_schedules@.len(),
                forall|k: int| 0 <= k < j ==> (#[trigger] ms[k]).name != name@,
            decreases ms.len() - j,
        {
            proof {
                assert(ms[j as int] == self.details.mint_schedules@[j as int].deep_view());
            }
            if self.details.mint_schedules[j].name == *name {
                return Some(j);
            }
            j += 1;
        }
        None
    }

    /// Updates the named schedule or inserts a new one. The caller must be
    /// an admin, the name must be non-empty, and the schedule as it would
    /// stand after the update must have a well-formed time range; only then
    /// is anything committed. An update always replaces the price tiers and
    /// overwrites only the optional fields that are supplied; a new schedule
    /// starts inactive and open to everyone unless the arguments say
    /// otherwise.
    pub fn update_mint_schedule(&mut self, caller_is_admin: bool, args: &UpdateMintScheduleArgs) -> (r:
        Result<(), String>)
        requires
            old(self).wf(),
        ensures
            final (self).wf(),
            final (self).abs() == old(self).abs(),
            final (self).archives == old(self).archives,
            ({
                let d0 = old(self).details.deep_view();
                let d1 = final (self).details.deep_view();
                let merged = spec_upserted_schedule(d0.mint_schedules, *args);
                if !caller_is_admin {
                    &&& r matches Err(m) && m@
                        == "Unauthorized: Only admins can update mint schedules"@
                    &&& final (self).details == old(self).details
                } else if args.name@.len() == 0 {
                    &&& r matches Err(m) && m@ == "Schedule name cannot be empty"@
                    &&& final (self).details == old(self).details
                } else if !schedule_range_ok(merged) {
                    &&& r matches Err(m) && m@ == "End time must be after start time"@
                    &&& final (self).details == old(self).details
                } else {
                    &&& r is Ok
                    &&& d1 == (crate::types::CollectionDetailsView {
                        mint_schedules: d1.mint_schedules,
                        ..d0
                    })
                    &&& if exists|j: int|
                        0 <= j < d0.mint_schedules.len() && (#[trigger] d0.mint_schedules[j]).name
                            == args.name@ {
                        let j = choose|j: int|
                            0 <= j < d0.mint_schedules.len()
                                && (#[trigger] d0.mint_schedules[j]).name == args.name@;
                        d1.mint_schedules == d0.mint_schedules.update(j, merged)
                    } else {
                        d1.mint_schedules == d0.mint_schedules.push(merged)
                    }
                }
            }),
    {
        if !caller_is_admin {
            return Err("Unauthorized: Only admins can update mint schedules".to_owned());
        }
        if args.name.as_str().is_empty() {
            return Err("Schedule name cannot be empty".to_owned());
        }
        let ghost ms0 = self.details.deep_view().mint_schedules;
        let found = self.find_schedule(&args.name);
        // The time range the schedule would have after this update.
        let (new_start, new_end): (Option<u64>, Option<u64>) = match found {
            Some(j) => {
                let start = match args.start_time {
                    Some(t) => Some(t),
                    None => self.details.mint_schedules[j].start_time,
                };
                let end = match args.end_time {
                    Some(t) => Some(t),
                    None => self.details.mint_schedules[j].end_time,
                };
                (start, end)
            },
            None => (args.start_time, args.end_time),
        };
        proof {
            if found is Some {
                let j = found->Some_0 as int;
                lemma_schedule_name_unique(ms0, args.name@, j);
            }
        }
        if let (Some(start), Some(end)) = (new_start, new_end) {
            if end <= start {
                return Err("End time must be after start time".to_owned());
            }
        }
        let mut tiers: Vec<BundlePrice> = Vec::new();
        let mut i: usize = 0;
        while i < args.bundle_prices.len()
            invariant
                0 <= i <= args.bundle_prices@.len(),
                tiers@ == args.bundle_prices@.take(i as int),
            decreases args.bundle_prices@.len() - i,
        {
            tiers.push(args.bundle_prices[i]);
            assert(tiers@ =~= args.bundle_prices@.take(i + 1));
            i += 1;
        }
        assert(tiers@ =~= args.bundle_prices@);
        match found {
            Some(j) => {
                let active = match args.active {
                    Some(a) => a,
                    None => self.details.mint_schedules[j].active,
                };
                let whitelist_only = match args.whitelist_only {
                    Some(w) => w,
                    None => self.details.mint_schedules[j].whitelist_only,
                };
                let updated = MintSchedule {
                    name: args.name.clone(),
                    bundle_prices: tiers,
                    start_time: new_start,
                    end_time: new_end,
                    active,
                    whitelist_only,
                };
                let ghost uv = updated.deep_view();
                self.details.mint_schedules.set(j, updated);
                proof {
                    let ms1 = self.details.deep_view().mint_schedules;
                    assert(ms1 =~= ms0.update(j as int, uv));
                    assert(uv.bundle_prices =~= args.bundle_prices.deep_view());
                    assert(uv == spec_upserted_schedule(ms0, *args));
                    assert forall|a: int, b: int|
                        0 <= a < b < ms1.len() implies (#[trigger] ms1[a]).name != (
                        #[trigger] ms1[b]).name by {
                        if a != j {
                            assert(ms1[a] == ms0[a]);
                        }
                        if b != j {
                            assert(ms1[b] == ms0[b]);
                        }
                        assert(ms1[j as int].name == ms0[j as int].name);
                    }
                    assert forall|a: int|
                        0 <= a < ms1.len() implies schedule_range_ok(#[trigger] ms1[a]) by {
                        if a != j {
                            assert(ms1[a] == ms0[a]);
                        }
                    }
                    assert(self.details.deep_view() == (crate::types::CollectionDetailsView {
                        mint_schedules: ms1,
                        ..old(self).details.deep_view()
                    }));
                }
            },
            None => {
                let active = match args.active {
                    Some(a) => a,
                    None => false,
                };
                let whitelist_only = match args.whitelist_only {
                    Some(w) => w,
                    None => false,
                };
                let fresh = MintSchedule {
                    name: args.name.clone(),
                    bundle_prices: tiers,
                    start_time: new_start,
                    end_time: new_end,
                    active,
                    whitelist_only,
                };
                let ghost fv = fresh.deep_view();
                self.details.mint_schedules.push(fresh);
                proof {
                    let ms1 = self.details.deep_view().mint_schedules;
                    assert(ms1 =~= ms0.push(fv));
                    assert(fv.bundle_prices =~= args.bundle_prices.deep_view());
                    assert(fv == spec_upserted_schedule(ms0, *args));
                    assert forall|a: int, b: int|
                        0 <= a < b < ms1.len() implies (#[trigger] ms1[a]).name != (
                        #[trigger] ms1[b]).name by {
                        if b < ms0.len() {
                            assert(ms1[a] == ms0[a] && ms1[b] == ms0[b]);
                        } else {
                            assert(ms1[b] == fv);
                            assert(ms1[a] == ms0[a]);
                        }
                    }
                    assert forall|a: int|
                        0 <= a < ms1.len() implies schedule_range_ok(#[trigger] ms1[a]) by {
                        if a < ms0.len() {
                            assert(ms1[a] == ms0[a]);
                        } else {
                            assert(ms1[a] == fv);
                        }
                    }
                    assert(self.details.deep_view() == (crate::types::CollectionDetailsView {
                        mint_schedules: ms1,
                        ..old(self).details.deep_view()
                    }));
                }
            },
        }
        Ok(())
    }

    /// Removes the named schedule. Only admins may call this, the name must
    /// be non-empty, and a name that matches no schedule is reported as an
    /// error, with nothing changed.
    pub fn remove_mint_schedule(&mut self, caller_is_admin: bool, name: &String) -> (r: Result<
        (),
        String,
    >)
        requires
            old(self).wf(),
        ensures
            final (self).wf(),
            final (self).abs() == old(self).abs(),
            final (self).archives == old(self).archives,
            ({
                let d0 = old(self).details.deep_view();
                let d1 = final (self).details.deep_view();
                if !caller_is_admin {
                    &&& r matches Err(m) && m@
                        == "Unauthorized: Only admins can remove mint schedules"@
                    &&& final (self).details == old(self).details
                } else if name@.len() == 0 {
                    &&& r matches Err(m) && m@ == "Schedule name cannot be empty"@
                    &&& final (self).details == old(self).details
                } else if exists|j: int|
                    0 <= j < d0.mint_schedules.len() && (#[trigger] d0.mint_schedules[j]).name
                        == name@ {
                    let j = choose|j: int|
                        0 <= j < d0.mint_schedules.len() && (#[trigger] d0.mint_schedules[j]).name
                            == name@;
                    &&& r is Ok
                    &&& d1 == (crate::types::CollectionDetailsView {
                        mint_schedules: d1.mint_schedules,
                        ..d0
                    })
                    &&& d1.mint_schedules == d0.mint_schedules.remove(j)
                } else {
                    &&& r matches Err(m) && m@ == "No schedule with name '"@ + name@ + "' found"@
                    &&& final (self).details == old(self).details
                }
            }),
    {
        if !caller_is_admin {
            return Err("Unauthorized: Only admins can remove mint schedules".to_owned());
        }
        if name.as_str().is_empty() {
            return Err("Schedule name cannot be empty".to_owned());
        }
        let ghost ms0 = self.details.deep_view().mint_schedules;
        match self.find_schedule(name) {
            Some(j) => {
                proof {
                    lemma_schedule_name_unique(ms0, name@, j as int);
                }
                self.details.mint_schedules.remove(j);
                proof {
                    let ms1 = self.details.deep_view().mint_schedules;
                    assert(ms1 =~= ms0.remove(j as int));
                    assert(ms1 =~= ms0.subrange(0, j as int) + ms0.subrange(
                        j + 1,
                        ms0.len() as int,
                    ));
                    assert forall|a: int, b: int|
                        0 <= a < b < ms1.len() implies (#[trigger] ms1[a]).name != (
                        #[trigger] ms1[b]).name by {
                        let a0 = if a < j {
                            a
                        } else {
                            a + 1
                        };
                        let b0 = if b < j {
                            b
                        } else {
                            b + 1
                        };
                        assert(ms1[a] == ms0[a0] && ms1[b] == ms0[b0]);
                    }
                    assert forall|a: int|
                        0 <= a < ms1.len() implies schedule_range_ok(#[trigger] ms1[a]) by {
                        let a0 = if a < j {
                            a
                        } else {
                            a + 1
                        };
                        assert(ms1[a] == ms0[a0]);
                    }
                    assert(self.details.deep_view() == (crate::types::CollectionDetailsView {
                        mint_schedules: ms1,
                        ..old(self).details.deep_view()
                    }));
                }
            },
            None => {
                let mut message = "No schedule with name '".to_owned();
                message.append(name.as_str());
                message.append("' found");
                return Err(message);
            },
        }
        Ok(())
    }

    /// Applies a partial update to the collection configuration. Only
    /// admins may call this, and once even one token has been minted the
    /// supply cap may no longer be changed, whatever the new value.
    pub fn update_collection_details(
        &mut self,
        caller_is_admin: bool,
        args: UpdateCollectionDetailsArgs,
    ) -> (r: Result<(), String>)
        requires
            old(self).wf(),
        ensures
            final (self).wf(),
            final (self).abs() == old(self).abs(),
            final (self).archives == old(self).archives,
            ({
                let d0 = old(self).details.deep_view();
                let d1 = final (self).details.deep_view();
                if !caller_is_admin {
                    &&& r matches Err(m) && m@
                        == "Unauthorized: Only admins can update collection details"@
                    &&& final (self).details == old(self).details
                } else if args.max_supply is Some && old(self).store.toks().len() > 0 {
                    &&& r matches Err(m) && m@
                        == "Cannot modify max supply after minting has started"@
                    &&& final (self).details == old(self).details
                } else {
                    &&& r is Ok
                    &&& d1.name == (if args.name is Some {
                        args.name->Some_0@
                    } else {
                        d0.name
                    })
                    &&& d1.symbol == (if args.symbol is Some {
                        args.symbol->Some_0@
                    } else {
                        d0.symbol
                    })
                    &&& d1.description == (if args.description is Some {
                        args.description->Some_0@
                    } else {
                        d0.description
                    })
                    &&& d1.max_supply == (if args.max_supply is Some {
                        args.max_supply
                    } else {
                        d0.max_supply
                    })
                    &&& d1.base_url == (if args.base_url is Some {
                        args.base_url->Some_0@
                    } else {
                        d0.base_url
                    })
                    &&& d1.logo == d0.logo
                    &&& d1.pricing_enabled == (if args.pricing_enabled is Some {
                        args.pricing_enabled->Some_0
                    } else {
                        d0.pricing_enabled
                    })
                    &&& d1.mint_schedules == d0.mint_schedules
                }
            }),
    {
        if !caller_is_admin {
            return Err("Unauthorized: Only admins can update collection details".to_owned());
        }
        if args.max_supply.is_some() {
            proof {
                lemma_store_len_bound(self.store);
            }
            if self.store.total_supply() > 0 {
                return Err("Cannot modify max supply after minting has started".to_owned());
            }
        }
        let UpdateCollectionDetailsArgs {
            name,
            symbol,
            description,
            max_supply,
            base_url,
            logo: _,
            pricing_enabled,
        } = args;
        match name {
            Some(n) => {
                self.details.name = n;
            },
            None => {},
        }
        match symbol {
            Some(v) => {
                self.details.symbol = v;
            },
            None => {},
        }
        match description {
            Some(v) => {
                self.details.description = v;
            },
            None => {},
        }
        match max_supply {
            Some(v) => {
                self.details.max_supply = Some(v);
            },
            None => {},
        }
        match base_url {
            Some(v) => {
                self.details.base_url = v;
            },
            None => {},
        }
        match pricing_enabled {
            Some(v) => {
                self.details.pricing_enabled = v;
            },
            None => {},
        }
        Ok(())
    }

    /// Replaces the collection's base content URL; admins only.
    pub fn update_base_url(&mut self, caller_is_admin: bool, new_base_url: String) -> (r: Result<
        (),
        String,
    >)
        requires
            old(self).wf(),
        ensures
            final (self).wf(),
            final (self).abs() == old(self).abs(),
            final (self).archives == old(self).archives,
            !caller_is_admin ==> {
                &&& r matches Err(m) && m@ == "Unauthorized: Only admins can update the base URL"@
                &&& final (self).details == old(self).details
            },
            caller_is_admin ==> {
                &&& r is Ok
                &&& final (self).details.deep_view() == (crate::types::CollectionDetailsView {
                    base_url: new_base_url@,
                    ..old(self).details.deep_view()
                })
            },
    {
        if !caller_is_admin {
            return Err("Unauthorized: Only admins can update the base URL".to_owned());
        }
        self.details.base_url = new_base_url;
        Ok(())
    }

    /// The former price-update entry point; superseded by the schedule
    /// upsert and kept only to answer with that advice.
    pub fn update_prices(&self, _price_args: String) -> (r: Result<(), String>)
        ensures
            r matches Err(m) && m@ == "This method is deprecated. Use update_mint_schedule instead."@,
    {
        Err("This method is deprecated. Use update_mint_schedule instead.".to_owned())
    }

    /// A fresh registry: no tokens, grants or records, and the default
    /// collection configuration with its two inactive schedules.
    pub fn new() -> (r: Registry)
        ensures
            r.wf(),
            r.store.toks().len() == 0,
            r.log.log().len() == 0,
            r.approvals.token_approvals@.len() == 0,
            r.approvals.collection_approvals@.len() == 0,
            r.archives@.len() == 0,
            ({
                let d = r.details.deep_view();
                &&& d.name == "ICRC-37+ NFT"@
                &&& d.symbol == "ICRC37+"@
                &&& d.description == "A fully compliant ICRC-37+ NFT collection"@
                &&& d.max_supply == Some(1000u64)
                &&& d.base_url == "https://example.com/api"@
                &&& d.logo is None
                &&& !d.pricing_enabled
                &&& d.mint_schedules.len() == 2
                &&& d.mint_schedules[0] == (crate::types::MintScheduleView {
                    name: "Standard"@,
                    bundle_prices: Seq::empty(),
                    start_time: None,
                    end_time: None,
                    active: false,
                    whitelist_only: false,
                })
                &&& d.mint_schedules[1] == (crate::types::MintScheduleView {
                    name: "Whitelist"@,
                    bundle_prices: Seq::empty(),
                    start_time: None,
                    end_time: None,
                    active: false,
                    whitelist_only: true,
                })
            }),
    {
        let standard = MintSchedule {
            name: "Standard".to_owned(),
            bundle_prices: Vec::new(),
            start_time: None,
            end_time: None,
            active: false,
            whitelist_only: false,
        };
        let whitelist = MintSchedule {
            name: "Whitelist".to_owned(),
            bundle_prices: Vec::new(),
            start_time: None,
            end_time: None,
            active: false,
            whitelist_only: true,
        };
        let mut schedules: Vec<MintSchedule> = Vec::new();
        schedules.push(standard);
        schedules.push(whitelist);
        let details = CollectionDetails {
            name: "ICRC-37+ NFT".to_owned(),
            symbol: "ICRC37+".to_owned(),
            description: "A fully compliant ICRC-37+ NFT collection".to_owned(),
            max_supply: Some(1000),
            base_url: "https://example.com/api".to_owned(),
            logo: None,
            pricing_enabled: false,
            mint_schedules: schedules,
        };
        let r = Registry {
            store: crate::store::TokenStore::new(),
            approvals: Approvals::new(),
            log: TransactionLog::new(),
            details,
            archives: Vec::new(),
        };
        proof {
            reveal_strlit("Standard");
            reveal_strlit("Whitelist");
            let d = r.details.deep_view();
            assert(d.mint_schedules[0].bundle_prices =~= Seq::<BundlePrice>::empty());
            assert(d.mint_schedules[1].bundle_prices =~= Seq::<BundlePrice>::empty());
            assert(d.mint_schedules[0].name != d.mint_schedules[1].name) by {
                assert("Standard"@.len() == 8);
                assert("Whitelist"@.len() == 9);
            }
        }
        r
    }
}

impl Registry {
    /// The collection's display name.
    pub fn icrc7_name(&self) -> (r: String)
        ensures
            r@ == self.details.deep_view().name,
    {
        self.details.name.clone()
    }

    /// The collection's ticker symbol.
    pub fn icrc7_symbol(&self) -> (r: String)
        ensures
            r@ == self.details.deep_view().symbol,
    {
        self.details.symbol.clone()
    }

    /// The collection's description.
    pub fn icrc7_description(&self) -> (r: Option<String>)
        ensures
            r is Some && r->Some_0@ == self.details.deep_view().description,
    {
        Some(self.details.description.clone())
    }

    /// How many tokens exist.
    pub fn icrc7_total_supply(&self) -> (r: u64)
        requires
            self.wf(),
        ensures
            r == self.store.toks().len(),
    {
        proof {
            lemma_store_len_bound(self.store);
        }
        self.store.total_supply()
    }

    /// The collection metadata pairs; `owner_text` is the host-rendered list
    /// of system administrators.
    pub fn icrc7_collection_metadata(&self, owner_text: String) -> (r: Vec<(String, Value)>)
        requires
            self.wf(),
        ensures
            r.deep_view() == spec_collection_metadata(
                self.details.deep_view(),
                self.store.toks().len() as int,
                owner_text@,
            ),
    {
        proof {
            lemma_store_len_bound(self.store);
        }
        let total = self.store.total_supply();
        let mut r: Vec<(String, Value)> = Vec::new();
        r.push(("icrc7:name".to_owned(), Value::Text(self.details.name.clone())));
        r.push(("icrc7:symbol".to_owned(), Value::Text(self.details.symbol.clone())));
        r.push(("icrc7:description".to_owned(), Value::Text(self.details.description.clone())));
        r.push(("icrc7:total_supply".to_owned(), Value::Nat(total as u128)));
        r.push(("icrc7:max_query_batch_size".to_owned(), Value::Nat(MAX_QUERY_BATCH_SIZE as u128)));
        r.push(
            ("icrc7:max_update_batch_size".to_owned(), Value::Nat(MAX_UPDATE_BATCH_SIZE as u128)),
        );
        r.push(("icrc7:default_take_value".to_owned(), Value::Nat(DEFAULT_TAKE_VALUE as u128)));
        r.push(("icrc7:max_take_value".to_owned(), Value::Nat(MAX_TAKE_VALUE as u128)));
        r.push(("logo".to_owned(), Value::Text("https://example.com/logo.png".to_owned())));
        match self.details.max_supply {
            Some(cap) => {
                r.push(("max_supply".to_owned(), Value::Nat(cap as u128)));
            },
            None => {},
        }
        r.push(("owner".to_owned(), Value::Text(owner_text)));
        proof {
            assert(r.deep_view() =~= spec_collection_metadata(
                self.details.deep_view(),
                self.store.toks().len() as int,
                owner_text@,
            ));
        }
        r
    }

    /// The standards this registry implements.
    pub fn icrc7_supported_standards(&self) -> (r: Vec<Standard>)
        ensures
            r.deep_view() == spec_supported_standards(),
    {
        let mut r: Vec<Standard> = Vec::new();
        r.push(
            Standard {
                name: "ICRC-3".to_owned(),
                url: "https://github.com/dfinity/ICRC/tree/main/ICRCs/ICRC-3".to_owned(),
            },
        );
        r.push(
            Standard {
                name: "ICRC-7".to_owned(),
                url: "https://github.com/dfinity/ICRC/tree/main/ICRCs/ICRC-7".to_owned(),
            },
        );
        r.push(
            Standard {
                name: "ICRC-37".to_owned(),
                url: "https://github.com/dfinity/ICRC/tree/main/ICRCs/ICRC-37".to_owned(),
            },
        );
        proof {
            assert(r.deep_view() =~= spec_supported_standards());
        }
        r
    }

    /// The metadata pairs of each named token, where it exists.
    pub fn icrc7_token_metadata(&self, token_ids: &Vec<u64>) -> (r: Vec<
        Option<Vec<(String, Value)>>,
    >)
        requires
            self.wf(),
        ensures
            r.deep_view().len() == token_ids@.len(),
            forall|i: int|
                0 <= i < token_ids@.len() ==> #[trigger] r.deep_view()[i] == (if 1 <= token_ids@[i]
                    <= self.store.toks().len() {
                    Some(spec_token_metadata_pairs(self.store.toks()[token_ids@[i] - 1]))
                } else {
                    None
                }),
    {
        let mut r: Vec<Option<Vec<(String, Value)>>> = Vec::new();
        let mut i: usize = 0;
        while i < token_ids.len()
            invariant
                0 <= i <= token_ids@.len(),
                self.wf(),
                r.deep_view().len() == i,
                forall|k: int|
                    0 <= k < i ==> #[trigger] r.deep_view()[k] == (if 1 <= token_ids@[k]
                        <= self.store.toks().len() {
                        Some(spec_token_metadata_pairs(self.store.toks()[token_ids@[k] - 1]))
                    } else {
                        None
                    }),
            decreases token_ids@.len() - i,
        {
            let entry: Option<Vec<(String, Value)>> = match self.store.get_token(token_ids[i]) {
                Some(record) => {
                    let mut pairs: Vec<(String, Value)> = Vec::new();
                    pairs.push(("name".to_owned(), Value::Text(record.metadata.name)));
                    pairs.push(("description".to_owned(), Value::Text(record.metadata.description)));
                    pairs.push(("image".to_owned(), Value::Text(record.metadata.image_url)));
                    proof {
                        assert(pairs.deep_view() =~= spec_token_metadata_pairs(
                            self.store.toks()[token_ids@[i as int] - 1],
                        ));
                    }
                    Some(pairs)
                },
                None => None,
            };
            let ghost entry_view = entry.deep_view();
            let ghost prev = r.deep_view();
            r.push(entry);
            proof {
                assert(r.deep_view() =~= prev.push(entry_view));
            }
            i += 1;
        }
        r
    }

    /// The owner account of each named token, where it exists.
    pub fn icrc7_owner_of(&self, token_ids: &Vec<u64>) -> (r: Vec<Option<Account>>)
        requires
            self.wf(),
        ensures
            r.deep_view().len() == token_ids@.len(),
            forall|i: int|
                0 <= i < token_ids@.len() ==> #[trigger] r.deep_view()[i] == (if 1 <= token_ids@[i]
                    <= self.store.toks().len() {
                    Some(
                        crate::types::AccountView {
                            owner: self.store.toks()[token_ids@[i] - 1].owner,
                            subaccount: None,
                        },
                    )
                } else {
                    None
                }),
    {
        let mut r: Vec<Option<Account>> = Vec::new();
        let mut i: usize = 0;
        while i < token_ids.len()
            invariant
                0 <= i <= token_ids@.len(),
                self.wf(),
                r.deep_view().len() == i,
                forall|k: int|
                    0 <= k < i ==> #[trigger] r.deep_view()[k] == (if 1 <= token_ids@[k]
                        <= self.store.toks().len() {
                        Some(
                            crate::types::AccountView {
                                owner: self.store.toks()[token_ids@[k] - 1].owner,
                                subaccount: None,
                            },
                        )
                    } else {
                        None
                    }),
            decreases token_ids@.len() - i,
        {
            let entry: Option<Account> = match self.store.get_owner(token_ids[i]) {
                Some(owner) => Some(Account { owner, subaccount: None }),
                None => None,
            };
            let ghost entry_view = entry.deep_view();
            let ghost prev = r.deep_view();
            r.push(entry);
            proof {
                assert(r.deep_view() =~= prev.push(entry_view));
            }
            i += 1;
        }
        r
    }

    /// How many tokens each named account owns.
    pub fn icrc7_balance_of(&self, accounts: &Vec<Account>) -> (r: Vec<u64>)
        requires
            self.wf(),
        ensures
            r@.len() == accounts@.len(),
            forall|i: int|
                0 <= i < accounts@.len() ==> #[trigger] r@[i] == self.store.spec_owned(
                    accounts@[i].owner,
                ).len(),
    {
        let mut r: Vec<u64> = Vec::new();
        let mut i: usize = 0;
        while i < accounts.len()
            invariant
                0 <= i <= accounts@.len(),
                self.wf(),
                r@.len() == i,
                forall|k: int|
                    0 <= k < i ==> #[trigger] r@[k] == self.store.spec_owned(
                        accounts@[k].owner,
                    ).len(),
            decreases accounts@.len() - i,
        {
            proof {
                lemma_owned_len_bound(self.store, accounts@[i as int].owner);
                lemma_store_len_bound(self.store);
            }
            let b = self.store.balance_of(accounts[i].owner);
            r.push(b);
            i += 1;
        }
        r
    }

    /// Up to `take` token ids (default 10, capped at 100) at or beyond the
    /// cursor, across all owners, ascending.
    pub fn icrc7_tokens(&self, prev: Option<u64>, take: Option<u64>) -> (r: Vec<u64>)
        requires
            self.wf(),
        ensures
            r@ == crate::store::spec_page(
                crate::store::all_token_ids(self.store.toks().len() as int),
                prev.unwrap_or(0),
                spec_take_clamp(take) as nat,
                true,
            ),
    {
        proof {
            lemma_store_len_bound(self.store);
        }
        let cursor = match prev {
            Some(p) => p,
            None => 0,
        };
        self.store.all_ids_page(cursor, take_clamp(take))
    }

    /// Up to `take` of the account's token ids (default 10, capped at 100)
    /// strictly beyond the cursor, ascending.
    pub fn icrc7_tokens_of(&self, account: &Account, prev: Option<u64>, take: Option<u64>) -> (r:
        Vec<u64>)
        requires
            self.wf(),
        ensures
            r@ == crate::store::spec_page(
                self.store.spec_owned(account.owner),
                prev.unwrap_or(0),
                spec_take_clamp(take) as nat,
                false,
            ),
    {
        let cursor = match prev {
            Some(p) => p,
            None => 0,
        };
        self.store.owned_page(account.owner, cursor, take_clamp(take))
    }

    /// A window of ledger records plus the total count.
    pub fn icrc3_get_transactions(&self, request: crate::ledger::GetTransactionsRequest) -> (r:
        crate::ledger::GetTransactionsResponse)
        requires
            self.wf(),
        ensures
            r.total == self.log.log().len(),
            r.transactions.deep_view() == crate::ledger::spec_page_records(
                self.log.log(),
                request.start.unwrap_or(0) as int,
                if request.length.unwrap_or(crate::ledger::DEFAULT_TRANSACTION_PAGE)
                    > crate::ledger::MAX_TRANSACTION_PAGE {
                    crate::ledger::MAX_TRANSACTION_PAGE as int
                } else {
                    request.length.unwrap_or(crate::ledger::DEFAULT_TRANSACTION_PAGE) as int
                },
            ),
    {
        self.log.get_transactions(request)
    }

    /// One ledger record by id, present exactly for ids below the count.
    pub fn icrc3_get_transaction(&self, transaction_id: u64) -> (r: Option<
        crate::ledger::Transaction,
    >)
        requires
            self.wf(),
        ensures
            transaction_id < self.log.log().len() ==> r is Some && r->Some_0.deep_view()
                == self.log.log()[transaction_id as int],
            transaction_id >= self.log.log().len() ==> r is None,
    {
        self.log.get_transaction(transaction_id)
    }

    /// The archive pointers.
    pub fn icrc3_get_archives(&self) -> (r: Vec<ArchiveInfo>)
        ensures
            r@ == self.archives@,
    {
        let mut r: Vec<ArchiveInfo> = Vec::new();
        let mut i: usize = 0;
        while i < self.archives.len()
            invariant
                0 <= i <= self.archives@.len(),
                r@ == self.archives@.take(i as int),
            decreases self.archives@.len() - i,
        {
            r.push(self.archives[i]);
            assert(r@ =~= self.archives@.take(i + 1));
            i += 1;
        }
        assert(r@ =~= self.archives@);
        r
    }

    /// A copy of the named token's record, where it exists.
    pub fn get_nft(&self, token_id: u64) -> (r: Option<crate::store::TokenRecord>)
        requires
            self.wf(),
        ensures
            1 <= token_id <= self.store.toks().len() ==> r is Some && r->Some_0.deep_view()
                == self.store.toks()[token_id - 1],
            !(1 <= token_id <= self.store.toks().len()) ==> r is None,
    {
        self.store.get_token(token_id)
    }

    /// Copies of all the records the user owns, in ascending id order.
    pub fn get_user_nfts(&self, user: Identity) -> (r: Vec<crate::store::TokenRecord>)
        requires
            self.wf(),
        ensures
            r.deep_view().len() == self.store.spec_owned(user).len(),
            forall|k: int|
                0 <= k < r.deep_view().len() ==> #[trigger] r.deep_view()[k]
                    == self.store.toks()[self.store.spec_owned(user)[k] - 1],
    {
        proof {
            lemma_owned_ids_valid(self.store, user);
        }
        let ids = self.store.owned_ids(user);
        let mut r: Vec<crate::store::TokenRecord> = Vec::new();
        let mut k: usize = 0;
        while k < ids.len()
            invariant
                0 <= k <= ids@.len(),
                self.wf(),
                ids@ == self.store.spec_owned(user),
                forall|m: int|
                    0 <= m < ids@.len() ==> {
                        let id = #[trigger] ids@[m];
                        1 <= id <= self.store.toks().len() && self.store.spec_owner_of(id) == user
                    },
                r.deep_view().len() == k,
                forall|m: int|
                    0 <= m < k ==> #[trigger] r.deep_view()[m] == self.store.toks()[ids@[m] - 1],
            decreases ids@.len() - k,
        {
            let record = match self.store.get_token(ids[k]) {
                Some(record) => record,
                None => {
                    proof {
                        assert(false);
                    }
                    unreached()
                },
            };
            let ghost rv = record.deep_view();
            let ghost prev = r.deep_view();
            r.push(record);
            proof {
                assert(r.deep_view() =~= prev.push(rv));
            }
            k += 1;
        }
        r
    }

    /// The named token's transfer history; empty where the token does not
    /// exist.
    pub fn get_transaction_history(&self, token_id: u64) -> (r: Vec<TransferRecord>)
        ensures
            1 <= token_id <= self.store.toks().len() ==> r@ == self.store.toks()[token_id
                - 1].transfer_history,
            !(1 <= token_id <= self.store.toks().len()) ==> r@ == Seq::<TransferRecord>::empty(),
    {
        self.store.transfer_history_of(token_id)
    }

    /// Copies of all mint schedules.
    pub fn get_mint_schedules(&self) -> (r: Vec<MintSchedule>)
        ensures
            r.deep_view() == self.details.deep_view().mint_schedules,
    {
        let mut r: Vec<MintSchedule> = Vec::new();
        let mut i: usize = 0;
        while i < self.details.mint_schedules.len()
            invariant
                0 <= i <= self.details.mint_schedules@.len(),
                r.deep_view() == self.details.deep_view().mint_schedules.take(i as int),
            decreases self.details.mint_schedules@.len() - i,
        {
            let copy = self.details.mint_schedules[i].duplicate();
            let ghost cv = copy.deep_view();
            proof {
                assert(cv == self.details.deep_view().mint_schedules[i as int]);
            }
            let ghost prev = r.deep_view();
            r.push(copy);
            proof {
                assert(r.deep_view() =~= prev.push(cv));
                assert(r.deep_view() =~= self.details.deep_view().mint_schedules.take(i + 1));
            }
            i += 1;
        }
        proof {
            assert(r.deep_view() =~= self.details.deep_view().mint_schedules);
        }
        r
    }

    /// Copies of all mint schedules; a second name for the same query, kept
    /// for callers that ask for time windows.
    pub fn get_minting_timeframes(&self) -> (r: Vec<MintSchedule>)
        ensures
            r.deep_view() == self.details.deep_view().mint_schedules,
    {
        self.get_mint_schedules()
    }

    /// Whether minting is open right now, per the qualification rule: the
    /// first flag says some active schedule open to everyone has a window
    /// containing `now`, the second says some active whitelist-only schedule
    /// does, and the third is the time used.
    pub fn is_minting_active(&self, now: u64) -> (r: (bool, bool, u64))
        ensures
            r.0 == spec_public_minting_open(self.details.deep_view().mint_schedules, now),
            r.1 == spec_whitelist_minting_open(self.details.deep_view().mint_schedules, now),
            r.2 == now,
    {
        let ghost ms = self.details.deep_view().mint_schedules;
        let mut public_open: bool = false;
        let mut whitelist_open: bool = false;
        let mut i: usize = 0;
        while i < self.details.mint_schedules.len()
            invariant
                0 <= i <= ms.len(),
                ms == self.details.deep_view().mint_schedules,
                ms.len() == self.details.mint_schedules@.len(),
                public_open == (exists|j: int|
                    0 <= j < i && spec_qualifies(#[trigger] ms[j], now, false)),
                whitelist_open == (exists|j: int|
                    0 <= j < i && ((#[trigger] ms[j]).active && ms[j].whitelist_only
                        && spec_time_ok(ms[j], now))),
            decreases ms.len() - i,
        {
            proof {
                assert(ms[i as int] == self.details.mint_schedules@[i as int].deep_view());
            }
            let s = &self.details.mint_schedules[i];
            let time_ok = match (s.start_time, s.end_time) {
                (Some(start), Some(end)) => start <= now && now <= end,
                (Some(start), None) => start <= now,
                (None, Some(end)) => now <= end,
                (None, None) => true,
            };
            let here_public = s.active && time_ok && !s.whitelist_only;
            let here_whitelist = s.active && time_ok && s.whitelist_only;
            proof {
                assert(time_ok == spec_time_ok(ms[i as int], now));
                assert(here_public == spec_qualifies(ms[i as int], now, false));
            }
            public_open = public_open || here_public;
            whitelist_open = whitelist_open || here_whitelist;
            i += 1;
        }
        (public_open, whitelist_open, now)
    }

    /// The schedules open to this caller right now, each paired with its
    /// price tiers; empty while pricing is disabled.
    pub fn get_available_bundles(&self, whitelisted: bool, now: u64) -> (r: Vec<
        (MintSchedule, Vec<BundlePrice>),
    >)
        ensures
            r.deep_view() == (if self.details.deep_view().pricing_enabled {
                spec_available(self.details.deep_view().mint_schedules, now, whitelisted)
            } else {
                Seq::<(crate::types::MintScheduleView, Seq<BundlePrice>)>::empty()
            }),
    {
        let mut r: Vec<(MintSchedule, Vec<BundlePrice>)> = Vec::new();
        if !self.details.pricing_enabled {
            proof {
                assert(r.deep_view() =~= Seq::<
                    (crate::types::MintScheduleView, Seq<BundlePrice>),
                >::empty());
            }
            return r;
        }
        let ghost ms = self.details.deep_view().mint_schedules;
        let mut i: usize = 0;
        proof {
            assert(r.deep_view() =~= spec_available(ms.take(0), now, whitelisted));
        }
        while i < self.details.mint_schedules.len()
            invariant
                0 <= i <= ms.len(),
                ms == self.details.deep_view().mint_schedules,
                ms.len() == self.details.mint_schedules@.len(),
                r.deep_view() == spec_available(ms.take(i as int), now, whitelisted),
            decreases ms.len() - i,
        {
            assert(ms.take(i + 1).drop_last() =~= ms.take(i as int));
            assert(ms.take(i + 1).last() == ms[i as int]);
            proof {
                assert(ms[i as int] == self.details.mint_schedules@[i as int].deep_view());
            }
            if crate::pricing::schedule_qualifies(&self.details.mint_schedules[i], now, whitelisted) {
                let copy = self.details.mint_schedules[i].duplicate();
                let tiers = copy_tiers(&self.details.mint_schedules[i].bundle_prices);
                let ghost entry_view = (copy.deep_view(), tiers@);
                r.push((copy, tiers));
                proof {
                    assert(entry_view.1 =~= ms[i as int].bundle_prices);
                    assert(r.deep_view() =~= spec_available(ms.take(i as int), now, whitelisted).push(
                        (ms[i as int], ms[i as int].bundle_prices),
                    ));
                }
            }
            i += 1;
        }
        proof {
            assert(ms.take(ms.len() as int) =~= ms);
        }
        r
    }

    /// The collection metadata under the custom query surface's name.
    pub fn get_collection_info(&self, owner_text: String) -> (r: Vec<(String, Value)>)
        requires
            self.wf(),
        ensures
            r.deep_view() == spec_collection_metadata(
                self.details.deep_view(),
                self.store.toks().len() as int,
                owner_text@,
            ),
    {
        self.icrc7_collection_metadata(owner_text)
    }

    /// Appends the ledger record for a completed asset upload, naming the
    /// stored key.
    pub fn record_upload(
        &mut self,
        caller: Identity,
        canister: Identity,
        asset_key: &String,
        now: u64,
    ) -> (id: u64)
        requires
            old(self).wf(),
            old(self).log.log().len() < u64::MAX,
        ensures
            final (self).wf(),
            id == old(self).log.log().len(),
            final (self).store == old(self).store,
            final (self).approvals == old(self).approvals,
            final (self).details == old(self).details,
            final (self).archives == old(self).archives,
            final (self).log.log() == old(self).log.log().push(
                TransactionView {
                    kind: "upload"@,
                    timestamp: now,
                    token_id: 0,
                    from: caller,
                    to: canister,
                    memo: None,
                    operation: "upload_file:"@ + asset_key@,
                    transaction_id: id,
                },
            ),
    {
        let mut operation = "upload_file:".to_owned();
        operation.append(asset_key.as_str());
        self.log.record("upload".to_owned(), 0, caller, canister, None, operation, now)
    }
}

/// The metadata pairs a token reports.
pub open spec fn spec_token_metadata_pairs(t: TokenRecordView) -> Seq<(Seq<char>, ValueView)> {
    seq![
        ("name"@, ValueView::Text(t.metadata.name)),
        ("description"@, ValueView::Text(t.metadata.description)),
        ("image"@, ValueView::Text(t.metadata.image_url)),
    ]
}

/// The clamped page size of a listing query: the default when absent, never
/// more than the maximum.
pub open spec fn spec_take_clamp(take: Option<u64>) -> u64 {
    let t = take.unwrap_or(DEFAULT_TAKE_VALUE);
    if t > MAX_TAKE_VALUE {
        MAX_TAKE_VALUE
    } else {
        t
    }
}

/// The clamped page size, executable.
fn take_clamp(take: Option<u64>) -> (r: usize)
    ensures
        r == spec_take_clamp(take),
{
    let t = match take {
        Some(t) => t,
        None => DEFAULT_TAKE_VALUE,
    };
    if t > MAX_TAKE_VALUE {
        MAX_TAKE_VALUE as usize
    } else {
        t as usize
    }
}

/// The collection metadata pairs: the fixed fields, the cap when one is
/// set, and the host-rendered owner list.
pub open spec fn spec_collection_metadata(
    d: crate::types::CollectionDetailsView,
    total: int,
    owner_text: Seq<char>,
) -> Seq<(Seq<char>, ValueView)> {
    let base = seq![
        ("icrc7:name"@, ValueView::Text(d.name)),
        ("icrc7:symbol"@, ValueView::Text(d.symbol)),
        ("icrc7:description"@, ValueView::Text(d.description)),
        ("icrc7:total_supply"@, ValueView::Nat(total as u128)),
        ("icrc7:max_query_batch_size"@, ValueView::Nat(MAX_QUERY_BATCH_SIZE as u128)),
        ("icrc7:max_update_batch_size"@, ValueView::Nat(MAX_UPDATE_BATCH_SIZE as u128)),
        ("icrc7:default_take_value"@, ValueView::Nat(DEFAULT_TAKE_VALUE as u128)),
        ("icrc7:max_take_value"@, ValueView::Nat(MAX_TAKE_VALUE as u128)),
        ("logo"@, ValueView::Text("https://example.com/logo.png"@)),
    ];
    let with_cap = if d.max_supply is Some {
        base.push(("max_supply"@, ValueView::Nat(d.max_supply->Some_0 as u128)))
    } else {
        base
    };
    with_cap.push(("owner"@, ValueView::Text(owner_text)))
}

/// The supported-standards list.
pub open spec fn spec_supported_standards() -> Seq<crate::types::StandardView> {
    seq![
        crate::types::StandardView {
            name: "ICRC-3"@,
            url: "https://github.com/dfinity/ICRC/tree/main/ICRCs/ICRC-3"@,
        },
        crate::types::StandardView {
            name: "ICRC-7"@,
            url: "https://github.com/dfinity/ICRC/tree/main/ICRCs/ICRC-7"@,
        },
        crate::types::StandardView {
            name: "ICRC-37"@,
            url: "https://github.com/dfinity/ICRC/tree/main/ICRCs/ICRC-37"@,
        },
    ]
}

/// Some active schedule open to everyone has a window containing `now`.
pub open spec fn spec_public_minting_open(
    ss: Seq<crate::types::MintScheduleView>,
    now: u64,
) -> bool {
    exists|j: int| 0 <= j < ss.len() && spec_qualifies(#[trigger] ss[j], now, false)
}

/// Some active whitelist-only schedule has a window containing `now`.
pub open spec fn spec_whitelist_minting_open(
    ss: Seq<crate::types::MintScheduleView>,
    now: u64,
) -> bool {
    exists|j: int|
        0 <= j < ss.len() && ((#[trigger] ss[j]).active && ss[j].whitelist_only && spec_time_ok(
            ss[j],
            now,
        ))
}

/// The qualifying schedules, each paired with its price tiers.
pub open spec fn spec_available(
    ss: Seq<crate::types::MintScheduleView>,
    now: u64,
    whitelisted: bool,
) -> Seq<(crate::types::MintScheduleView, Seq<BundlePrice>)>
    decreases ss.len(),
{
    if ss.len() == 0 {
        Seq::empty()
    } else {
        let prefix = spec_available(ss.drop_last(), now, whitelisted);
        if crate::pricing::spec_qualifies(ss.last(), now, whitelisted) {
            prefix.push((ss.last(), ss.last().bundle_prices))
        } else {
            prefix
        }
    }
}

/// A copy of a tier list.
fn copy_tiers(tiers: &Vec<BundlePrice>) -> (r: Vec<BundlePrice>)
    ensures
        r@ == tiers@,
{
    let mut r: Vec<BundlePrice> = Vec::new();
    let mut i: usize = 0;
    while i < tiers.len()
        invariant
            0 <= i <= tiers@.len(),
            r@ == tiers@.take(i as int),
        decreases tiers@.len() - i,
    {
        r.push(tiers[i]);
        assert(r@ =~= tiers@.take(i + 1));
        i += 1;
    }
    assert(r@ =~= tiers@);
    r
}

/// The schedule as it stands after an upsert: the existing entry with the
/// supplied fields overwritten, or a fresh entry with safe defaults.
pub open spec fn spec_upserted_schedule(
    ss: Seq<crate::types::MintScheduleView>,
    args: UpdateMintScheduleArgs,
) -> crate::types::MintScheduleView {
    if exists|j: int| 0 <= j < ss.len() && (#[trigger] ss[j]).name == args.name@ {
        let j = choose|j: int| 0 <= j < ss.len() && (#[trigger] ss[j]).name == args.name@;
        let s = ss[j];
        crate::types::MintScheduleView {
            name: s.name,
            bundle_prices: args.bundle_prices.deep_view(),
            start_time: if args.start_time is Some {
                args.start_time
            } else {
                s.start_time
            },
            end_time: if args.end_time is Some {
                args.end_time
            } else {
                s.end_time
            },
            active: if args.active is Some {
                args.active->Some_0
            } else {
                s.active
            },
            whitelist_only: if args.whitelist_only is Some {
                args.whitelist_only->Some_0
            } else {
                s.whitelist_only
            },
        }
    } else {
        crate::types::MintScheduleView {
            name: args.name@,
            bundle_prices: args.bundle_prices.deep_view(),
            start_time: args.start_time,
            end_time: args.end_time,
            active: if args.active is Some {
                args.active->Some_0
            } else {
                false
            },
            whitelist_only: if args.whitelist_only is Some {
                args.whitelist_only->Some_0
            } else {
                false
            },
        }
    }
}

/// With unique names, an entry that matches settles which index the name is
/// found at.
proof fn lemma_schedule_name_unique(
    ss: Seq<crate::types::MintScheduleView>,
    name: Seq<char>,
    j: int,
)
    requires
        forall|a: int, b: int|
            0 <= a < b < ss.len() ==> (#[trigger] ss[a]).name != (#[trigger] ss[b]).name,
        0 <= j < ss.len(),
        ss[j].name == name,
    ensures
        exists|k: int| 0 <= k < ss.len() && (#[trigger] ss[k]).name == name,
        (choose|k: int| 0 <= k < ss.len() && (#[trigger] ss[k]).name == name) == j,
{
    assert(0 <= j < ss.len() && ss[j].name == name);
    let k = choose|k: int| 0 <= k < ss.len() && (#[trigger] ss[k]).name == name;
    if k != j {
        assert(false);
    }
}

/// What one token-approval request does to the state, and its outcome.
pub open spec fn approve_token_step(
    st: ProtocolState,
    caller: Identity,
    arg: ApprovalArgs,
    now: u64,
) -> (ProtocolState, Result<u64, TransferError>) {
    let tid = arg.token_id;
    if !(1 <= tid <= st.toks.len()) {
        (st, Err(TransferError::NotFound))
    } else if st.toks[tid - 1].owner != caller {
        (st, Err(TransferError::Unauthorized))
    } else {
        let info = ApprovalInfo {
            spender: arg.spender.owner,
            token_id: tid,
            expires_at: arg.expires_at,
            created_at: now,
        };
        let tx = TransactionView {
            kind: "approve"@,
            timestamp: now,
            token_id: tid,
            from: caller,
            to: arg.spender.owner,
            memo: memo_view(arg.memo),
            operation: "token_approval"@,
            transaction_id: st.log.len() as u64,
        };
        (
            ProtocolState {
                token_grants: st.token_grants.insert((tid, arg.spender.owner), info),
                log: st.log.push(tx),
                ..st
            },
            Ok(now),
        )
    }
}

/// A batch of token approvals, committed one by one in array order.
pub open spec fn approve_token_fold(
    st: ProtocolState,
    caller: Identity,
    args: Seq<ApprovalArgs>,
    now: u64,
) -> (ProtocolState, Seq<Result<u64, TransferError>>)
    decreases args.len(),
{
    if args.len() == 0 {
        (st, Seq::empty())
    } else {
        let (st1, rs) = approve_token_fold(st, caller, args.drop_last(), now);
        let (st2, r) = approve_token_step(st1, caller, args.last(), now);
        (st2, rs.push(r))
    }
}

/// What one delegated-transfer request does to the state, and its outcome.
pub open spec fn transfer_from_step(
    st: ProtocolState,
    caller: Identity,
    arg: TransferFromArgs,
    now: u64,
) -> (ProtocolState, Result<u64, TransferError>) {
    let tid = arg.token_id;
    if !(1 <= tid <= st.toks.len()) {
        (st, Err(TransferError::NotFound))
    } else if st.toks[tid - 1].owner != arg.from.owner {
        (st, Err(TransferError::Unauthorized))
    } else if !state_approved(st, caller, arg.from.owner, tid, now) {
        (st, Err(TransferError::Unauthorized))
    } else {
        let tx = TransactionView {
            kind: "transfer"@,
            timestamp: now,
            token_id: tid,
            from: arg.from.owner,
            to: arg.to.owner,
            memo: memo_view(arg.memo),
            operation: "transfer_from"@,
            transaction_id: st.log.len() as u64,
        };
        (
            ProtocolState {
                toks: st.toks.update(tid - 1, moved_token(st.toks[tid - 1], arg.to.owner, now)),
                token_grants: st.token_grants.remove((tid, caller)),
                collection_grants: st.collection_grants,
                log: st.log.push(tx),
            },
            Ok(now),
        )
    }
}

/// A batch of delegated transfers, committed one by one in array order.
pub open spec fn transfer_from_fold(
    st: ProtocolState,
    caller: Identity,
    args: Seq<TransferFromArgs>,
    now: u64,
) -> (ProtocolState, Seq<Result<u64, TransferError>>)
    decreases args.len(),
{
    if args.len() == 0 {
        (st, Seq::empty())
    } else {
        let (st1, rs) = transfer_from_fold(st, caller, args.drop_last(), now);
        let (st2, r) = transfer_from_step(st1, caller, args.last(), now);
        (st2, rs.push(r))
    }
}

/// Pointwise lookup changes lift to a map insert.
proof fn lemma_token_grants_insert(
    a0: Approvals,
    a1: Approvals,
    token_id: u64,
    spender: Identity,
    info: ApprovalInfo,
)
    requires
        forall|t2: u64, s2: Identity|
            #[trigger] a1.spec_token(t2, s2) == (if t2 == token_id && s2 == spender {
                Some(info)
            } else {
                a0.spec_token(t2, s2)
            }),
    ensures
        token_grants_of(a1.token_approvals@) == token_grants_of(a0.token_approvals@).insert(
            (token_id, spender),
            info,
        ),
{
    let m1 = token_grants_of(a1.token_approvals@);
    let m2 = token_grants_of(a0.token_approvals@).insert((token_id, spender), info);
    assert forall|k: (u64, Identity)| m1.dom().contains(k) <==> m2.dom().contains(k) by {
        assert(a1.spec_token(k.0, k.1) == (if k.0 == token_id && k.1 == spender {
            Some(info)
        } else {
            a0.spec_token(k.0, k.1)
        }));
    }
    assert forall|k: (u64, Identity)| m1.dom().contains(k) implies m1[k] == m2[k] by {
        assert(a1.spec_token(k.0, k.1) == (if k.0 == token_id && k.1 == spender {
            Some(info)
        } else {
            a0.spec_token(k.0, k.1)
        }));
    }
    assert(m1.dom() =~= m2.dom());
    assert(m1 =~= m2);
}

/// Pointwise lookup changes lift to a map removal.
proof fn lemma_token_grants_remove(a0: Approvals, a1: Approvals, token_id: u64, spender: Identity)
    requires
        forall|t2: u64, s2: Identity|
            #[trigger] a1.spec_token(t2, s2) == (if t2 == token_id && s2 == spender {
                None::<ApprovalInfo>
            } else {
                a0.spec_token(t2, s2)
            }),
    ensures
        token_grants_of(a1.token_approvals@) == token_grants_of(a0.token_approvals@).remove(
            (token_id, spender),
        ),
{
    let m1 = token_grants_of(a1.token_approvals@);
    let m2 = token_grants_of(a0.token_approvals@).remove((token_id, spender));
    assert forall|k: (u64, Identity)| m1.dom().contains(k) <==> m2.dom().contains(k) by {
        assert(a1.spec_token(k.0, k.1) == (if k.0 == token_id && k.1 == spender {
            None::<ApprovalInfo>
        } else {
            a0.spec_token(k.0, k.1)
        }));
    }
    assert forall|k: (u64, Identity)| m1.dom().contains(k) implies m1[k] == m2[k] by {
        assert(a1.spec_token(k.0, k.1) == (if k.0 == token_id && k.1 == spender {
            None::<ApprovalInfo>
        } else {
            a0.spec_token(k.0, k.1)
        }));
    }
    assert(m1.dom() =~= m2.dom());
    assert(m1 =~= m2);
}

/// Pointwise lookup changes lift to a map insert.
proof fn lemma_collection_grants_insert(
    a0: Approvals,
    a1: Approvals,
    owner: Identity,
    spender: Identity,
    info: ApprovalInfo,
)
    requires
        forall|o2: Identity, s2: Identity|
            #[trigger] a1.spec_collection(o2, s2) == (if o2 == owner && s2 == spender {
                Some(info)
            } else {
                a0.spec_collection(o2, s2)
            }),
    ensures
        collection_grants_of(a1.collection_approvals@) == collection_grants_of(
            a0.collection_approvals@,
        ).insert((owner, spender), info),
{
    let m1 = collection_grants_of(a1.collection_approvals@);
    let m2 = collection_grants_of(a0.collection_approvals@).insert((owner, spender), info);
    assert forall|k: (Identity, Identity)| m1.dom().contains(k) <==> m2.dom().contains(k) by {
        assert(a1.spec_collection(k.0, k.1) == (if k.0 == owner && k.1 == spender {
            Some(info)
        } else {
            a0.spec_collection(k.0, k.1)
        }));
    }
    assert forall|k: (Identity, Identity)| m1.dom().contains(k) implies m1[k] == m2[k] by {
        assert(a1.spec_collection(k.0, k.1) == (if k.0 == owner && k.1 == spender {
            Some(info)
        } else {
            a0.spec_collection(k.0, k.1)
        }));
    }
    assert(m1.dom() =~= m2.dom());
    assert(m1 =~= m2);
}

/// The approval engine's verdict agrees with the map-level one.
proof fn lemma_state_approved_bridge(
    st: ProtocolState,
    a: Approvals,
    spender: Identity,
    owner: Identity,
    token_id: u64,
    now: u64,
)
    requires
        st.token_grants == token_grants_of(a.token_approvals@),
        st.collection_grants == collection_grants_of(a.collection_approvals@),
    ensures
        a.spec_is_approved(spender, owner, token_id, now) == state_approved(
            st,
            spender,
            owner,
            token_id,
            now,
        ),
{
    assert(st.token_grants.dom().contains((token_id, spender)) <==> spec_token_approval(
        a.token_approvals@,
        token_id,
        spender,
    ) is Some);
    if st.token_grants.dom().contains((token_id, spender)) {
        assert(st.token_grants[(token_id, spender)] == spec_token_approval(
            a.token_approvals@,
            token_id,
            spender,
        )->Some_0);
    }
    assert(st.collection_grants.dom().contains((owner, spender)) <==> spec_collection_approval(
        a.collection_approvals@,
        owner,
        spender,
    ) is Some);
    if st.collection_grants.dom().contains((owner, spender)) {
        assert(st.collection_grants[(owner, spender)] == spec_collection_approval(
            a.collection_approvals@,
            owner,
            spender,
        )->Some_0);
    }
}

/// A successful delegated transfer consumes the token-scoped grant it used:
/// the identical request retried against the resulting state, with no live
/// collection-scoped grant from the stated source, fails `Unauthorized`.
pub proof fn lemma_delegated_transfer_consumed(
    st0: ProtocolState,
    caller: Identity,
    arg: TransferFromArgs,
    now: u64,
    now2: u64,
)
    requires
        transfer_from_step(st0, caller, arg, now).1 is Ok,
        !grant_live(
            transfer_from_step(st0, caller, arg, now).0.collection_grants,
            (arg.from.owner, caller),
            now2,
        ),
    ensures
        transfer_from_step(transfer_from_step(st0, caller, arg, now).0, caller, arg, now2).1
            == Err::<u64, TransferError>(TransferError::Unauthorized),
{
    let st1 = transfer_from_step(st0, caller, arg, now).0;
    let tid = arg.token_id;
    assert(st1.toks[tid - 1].owner == arg.to.owner);
    if arg.to.owner == arg.from.owner {
        assert(!st1.token_grants.dom().contains((tid, caller)));
    }
}

/// A collection-scoped grant outlives the transfers it authorizes: after a
/// successful delegated transfer, the same delegate may move the same token
/// on from its new owner whenever that owner's collection-scoped grant to
/// the delegate is live.
pub proof fn lemma_collection_grant_outlives_transfer(
    st0: ProtocolState,
    caller: Identity,
    arg: TransferFromArgs,
    now: u64,
    arg2: TransferFromArgs,
    now2: u64,
)
    requires
        transfer_from_step(st0, caller, arg, now).1 is Ok,
        arg2.token_id == arg.token_id,
        arg2.from.owner == arg.to.owner,
        grant_live(st0.collection_grants, (arg2.from.owner, caller), now2),
    ensures
        transfer_from_step(transfer_from_step(st0, caller, arg, now).0, caller, arg2, now2).1
            is Ok,
{
    let st1 = transfer_from_step(st0, caller, arg, now).0;
    let tid = arg.token_id;
    assert(st1.toks[tid - 1].owner == arg.to.owner);
    assert(st1.collection_grants == st0.collection_grants);
}

} // verus!
