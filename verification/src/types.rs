//! The plain data types of the registry, with their mathematical views.
//!
//! The host environment identifies callers by an opaque principal value; the
//! registry only ever compares identities for equality, so it models one as a
//! small handle that the shell interns principals into. Prices likewise reach
//! the registry as plain unsigned integers. Types that hold strings or
//! vectors get a view struct over `Seq`, so contracts can speak of their
//! contents; types made only of scalars are their own view.

use vstd::prelude::*;

verus! {

/// An opaque caller/owner identity. The host shell maps each principal of the
/// environment to one distinct handle; the registry never looks inside it.
#[derive(Clone, Copy, Debug, Hash, PartialEq, Eq, Structural)]
pub struct Identity {
    pub id: u64,
}

impl Identity {
    pub fn new(id: u64) -> (r: Identity)
        ensures
            r.id == id,
    {
        Identity { id }
    }

    /// The anonymous identity: the handle the host shell reserves for its
    /// environment's anonymous principal.
    pub fn anonymous() -> (r: Identity)
        ensures
            r.id == 0,
    {
        Identity { id: 0 }
    }
}

impl DeepView for Identity {
    type V = Identity;

    open spec fn deep_view(&self) -> Identity {
        *self
    }
}

/// Whether a price line is meant for everyone or for whitelisted callers.
#[derive(Clone, Copy, Debug, PartialEq, Eq, Structural)]
pub enum PriceType {
    Standard,
    Whitelist,
}

/// One pricing tier: a bundle of `quantity` tokens costs `price` in total.
#[derive(Clone, Copy, Debug, PartialEq, Eq, Structural)]
pub struct BundlePrice {
    /// Number of tokens the bundle covers; a tier is usable only for requests
    /// of at least this many tokens.
    pub quantity: u64,
    /// Total price of one bundle, in the smallest currency unit.
    pub price: u64,
}

impl DeepView for BundlePrice {
    type V = BundlePrice;

    open spec fn deep_view(&self) -> BundlePrice {
        *self
    }
}

/// A named, time-boxed, audience-gated minting window with its price tiers.
#[derive(Debug)]
pub struct MintSchedule {
    pub name: String,
    pub bundle_prices: Vec<BundlePrice>,
    /// Nanoseconds since the epoch; `None` means no lower bound.
    pub start_time: Option<u64>,
    /// Nanoseconds since the epoch; `None` means no upper bound.
    pub end_time: Option<u64>,
    pub active: bool,
    pub whitelist_only: bool,
}

/// The mathematical content of a `MintSchedule`.
pub struct MintScheduleView {
    pub name: Seq<char>,
    pub bundle_prices: Seq<BundlePrice>,
    pub start_time: Option<u64>,
    pub end_time: Option<u64>,
    pub active: bool,
    pub whitelist_only: bool,
}

impl DeepView for MintSchedule {
    type V = MintScheduleView;

    open spec fn deep_view(&self) -> MintScheduleView {
        MintScheduleView {
            name: self.name@,
            bundle_prices: self.bundle_prices.deep_view(),
            start_time: self.start_time,
            end_time: self.end_time,
            active: self.active,
            whitelist_only: self.whitelist_only,
        }
    }
}

impl MintSchedule {
    /// A deep copy, equal to the original in view.
    pub fn duplicate(&self) -> (r: MintSchedule)
        ensures
            r.deep_view() == self.deep_view(),
    {
        let mut tiers: Vec<BundlePrice> = Vec::new();
        let mut i: usize = 0;
        while i < self.bundle_prices.len()
            invariant
                0 <= i <= self.bundle_prices@.len(),
                tiers@ == self.bundle_prices@.take(i as int),
            decreases self.bundle_prices@.len() - i,
        {
            tiers.push(self.bundle_prices[i]);
            assert(tiers@ =~= self.bundle_prices@.take(i + 1));
            i += 1;
        }
        assert(tiers@ =~= self.bundle_prices@);
        let r = MintSchedule {
            name: self.name.clone(),
            bundle_prices: tiers,
            start_time: self.start_time,
            end_time: self.end_time,
            active: self.active,
            whitelist_only: self.whitelist_only,
        };
        assert(r.deep_view().bundle_prices =~= self.deep_view().bundle_prices);
        r
    }
}

/// The singleton collection configuration.
#[derive(Debug)]
pub struct CollectionDetails {
    pub name: String,
    pub symbol: String,
    pub description: String,
    pub max_supply: Option<u64>,
    pub base_url: String,
    pub logo: Option<String>,
    pub pricing_enabled: bool,
    pub mint_schedules: Vec<MintSchedule>,
}

/// The mathematical content of the collection configuration.
pub struct CollectionDetailsView {
    pub name: Seq<char>,
    pub symbol: Seq<char>,
    pub description: Seq<char>,
    pub max_supply: Option<u64>,
    pub base_url: Seq<char>,
    pub logo: Option<Seq<char>>,
    pub pricing_enabled: bool,
    pub mint_schedules: Seq<MintScheduleView>,
}

impl DeepView for CollectionDetails {
    type V = CollectionDetailsView;

    open spec fn deep_view(&self) -> CollectionDetailsView {
        CollectionDetailsView {
            name: self.name@,
            symbol: self.symbol@,
            description: self.description@,
            max_supply: self.max_supply,
            base_url: self.base_url@,
            logo: match self.logo {
                Some(s) => Some(s@),
                None => None,
            },
            pricing_enabled: self.pricing_enabled,
            mint_schedules: self.mint_schedules.deep_view(),
        }
    }
}

/// One step of a token's transfer history.
#[derive(Clone, Copy, Debug, PartialEq, Eq, Structural)]
pub struct TransferRecord {
    pub from: Identity,
    pub to: Identity,
    pub timestamp: u64,
}

impl DeepView for TransferRecord {
    type V = TransferRecord;

    open spec fn deep_view(&self) -> TransferRecord {
        *self
    }
}

/// A delegated-transfer grant, token- or collection-scoped.
#[derive(Clone, Copy, Debug, PartialEq, Eq, Structural)]
pub struct ApprovalInfo {
    pub spender: Identity,
    /// The granted token, or 0 for a collection-scoped grant.
    pub token_id: u64,
    /// Nanoseconds since the epoch; `None` means the grant never expires.
    pub expires_at: Option<u64>,
    pub created_at: u64,
}

impl DeepView for ApprovalInfo {
    type V = ApprovalInfo;

    open spec fn deep_view(&self) -> ApprovalInfo {
        *self
    }
}

/// A pointer to a range of ledger records held by an external archive.
#[derive(Clone, Copy, Debug, PartialEq, Eq, Structural)]
pub struct ArchiveInfo {
    pub canister_id: Identity,
    /// First transaction index in the archive.
    pub start: u64,
    /// Last transaction index in the archive, inclusive.
    pub end: u64,
}

impl DeepView for ArchiveInfo {
    type V = ArchiveInfo;

    open spec fn deep_view(&self) -> ArchiveInfo {
        *self
    }
}

/// An account as callers see it; the registry reads only the owner.
#[derive(Clone, Debug)]
pub struct Account {
    pub owner: Identity,
    pub subaccount: Option<Vec<u8>>,
}

/// The mathematical content of an `Account`.
pub struct AccountView {
    pub owner: Identity,
    pub subaccount: Option<Seq<u8>>,
}

impl DeepView for Account {
    type V = AccountView;

    open spec fn deep_view(&self) -> AccountView {
        AccountView {
            owner: self.owner,
            subaccount: match self.subaccount {
                Some(s) => Some(s@),
                None => None,
            },
        }
    }
}

/// The typed failures of the transfer and approval protocol.
#[derive(Clone, Debug, PartialEq, Eq)]
pub enum TransferError {
    BadFee { expected_fee: u128 },
    BadBurn { min_burn_amount: u128 },
    InsufficientFunds { balance: u128 },
    TooOld,
    CreatedInFuture { ledger_time: u64 },
    Duplicate { duplicate_of: u64 },
    GenericError { error_code: u128, message: String },
    TemporarilyUnavailable,
    Unauthorized,
    NotFound,
}

/// A supported-standards entry.
#[derive(Debug)]
pub struct Standard {
    pub name: String,
    pub url: String,
}

/// The mathematical content of a `Standard`.
pub struct StandardView {
    pub name: Seq<char>,
    pub url: Seq<char>,
}

impl DeepView for Standard {
    type V = StandardView;

    open spec fn deep_view(&self) -> StandardView {
        StandardView { name: self.name@, url: self.url@ }
    }
}

/// A loosely-typed metadata value: a closed tagged union of the numeric,
/// text and binary shapes the collection metadata uses.
#[derive(Debug)]
pub enum Value {
    Nat(u128),
    Int(i64),
    Text(String),
    Blob(Vec<u8>),
}

/// The mathematical content of a `Value`.
pub enum ValueView {
    Nat(u128),
    Int(i64),
    Text(Seq<char>),
    Blob(Seq<u8>),
}

impl DeepView for Value {
    type V = ValueView;

    open spec fn deep_view(&self) -> ValueView {
        match self {
            Value::Nat(n) => ValueView::Nat(*n),
            Value::Int(n) => ValueView::Int(*n),
            Value::Text(s) => ValueView::Text(s@),
            Value::Blob(b) => ValueView::Blob(b@),
        }
    }
}

} // verus!
