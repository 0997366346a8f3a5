//! The mint-schedule pricing resolver.
//!
//! A schedule qualifies for a caller at a moment when it is active, its time
//! window contains the moment (an unset bound is unbounded on that side), and
//! it is either open to everyone or the caller is whitelisted. Within one
//! schedule the usable tier for a requested quantity is the one with the
//! largest bundle size not exceeding the quantity; the total is the tier price
//! times the number of bundles, rounded up. The resolver returns the minimum
//! total across all qualifying schedules.

use vstd::prelude::*;

use crate::types::BundlePrice;
use crate::types::MintSchedule;
use crate::types::MintScheduleView;

verus! {

/// The schedule's time window contains `now`; a missing bound is unbounded.
pub open spec fn spec_time_ok(s: MintScheduleView, now: u64) -> bool {
    match (s.start_time, s.end_time) {
        (Some(start), Some(end)) => start <= now && now <= end,
        (Some(start), None) => start <= now,
        (None, Some(end)) => now <= end,
        (None, None) => true,
    }
}

/// The schedule applies to this caller at this moment.
pub open spec fn spec_qualifies(s: MintScheduleView, now: u64, whitelisted: bool) -> bool {
    s.active && spec_time_ok(s, now) && (!s.whitelist_only || whitelisted)
}

/// The subsequence of schedules that apply, in their original order.
pub open spec fn spec_qualifying(ss: Seq<MintScheduleView>, now: u64, whitelisted: bool) -> Seq<
    MintScheduleView,
>
    decreases ss.len(),
{
    if ss.len() == 0 {
        Seq::empty()
    } else {
        let prefix = spec_qualifying(ss.drop_last(), now, whitelisted);
        if spec_qualifies(ss.last(), now, whitelisted) {
            prefix.push(ss.last())
        } else {
            prefix
        }
    }
}

/// A tier can serve a request of `quantity` tokens: its bundle size is
/// positive and does not exceed the request.
pub open spec fn spec_tier_eligible(t: BundlePrice, quantity: u64) -> bool {
    1 <= t.quantity && t.quantity <= quantity
}

/// The tier a schedule uses for a request: the eligible tier with the largest
/// bundle size, the later of two equal sizes winning.
pub open spec fn spec_best_tier(tiers: Seq<BundlePrice>, quantity: u64) -> Option<BundlePrice>
    decreases tiers.len(),
{
    if tiers.len() == 0 {
        None
    } else {
        let prev = spec_best_tier(tiers.drop_last(), quantity);
        let t = tiers.last();
        if spec_tier_eligible(t, quantity) && (prev is None || t.quantity
            >= prev->Some_0.quantity) {
            Some(t)
        } else {
            prev
        }
    }
}

/// How many bundles of the tier cover the request, rounding up.
pub open spec fn spec_bundle_count(t: BundlePrice, quantity: u64) -> int {
    (quantity + t.quantity - 1) / (t.quantity as int)
}

/// The total a tier charges for the request: full bundles, rounded up.
pub open spec fn spec_tier_total(t: BundlePrice, quantity: u64) -> int {
    spec_bundle_count(t, quantity) * t.price
}

/// What one schedule charges for the request, if it has an eligible tier.
pub open spec fn spec_schedule_price(s: MintScheduleView, quantity: u64) -> Option<int> {
    match spec_best_tier(s.bundle_prices, quantity) {
        None => None,
        Some(t) => Some(spec_tier_total(t, quantity)),
    }
}

/// The minimum charge across the given schedules, the earlier of two equal
/// charges winning; `None` when no schedule has an eligible tier.
pub open spec fn spec_best_price(ss: Seq<MintScheduleView>, quantity: u64) -> Option<int>
    decreases ss.len(),
{
    if ss.len() == 0 {
        None
    } else {
        let prev = spec_best_price(ss.drop_last(), quantity);
        match (prev, spec_schedule_price(ss.last(), quantity)) {
            (None, p) => p,
            (Some(b), None) => Some(b),
            (Some(b), Some(p)) => if p < b {
                Some(p)
            } else {
                Some(b)
            },
        }
    }
}

/// The chosen tier is what the selection rule promises: none exactly when no
/// tier is eligible, and otherwise an eligible tier whose bundle size no
/// other eligible tier exceeds.
pub proof fn lemma_best_tier_largest(tiers: Seq<BundlePrice>, quantity: u64)
    ensures
        spec_best_tier(tiers, quantity) is None <==> (forall|k: int|
            0 <= k < tiers.len() ==> !spec_tier_eligible(#[trigger] tiers[k], quantity)),
        spec_best_tier(tiers, quantity) matches Some(t) ==> {
            &&& exists|j: int| 0 <= j < tiers.len() && #[trigger] tiers[j] == t
            &&& spec_tier_eligible(t, quantity)
            &&& forall|k: int|
                0 <= k < tiers.len() && spec_tier_eligible(#[trigger] tiers[k], quantity)
                    ==> tiers[k].quantity <= t.quantity
        },
    decreases tiers.len(),
{
    if tiers.len() > 0 {
        let prefix = tiers.drop_last();
        let last = tiers.last();
        lemma_best_tier_largest(prefix, quantity);
        let bp = spec_best_tier(prefix, quantity);
        let bt = spec_best_tier(tiers, quantity);
        if bt is None {
            assert(bp is None);
            assert forall|k: int|
                0 <= k < tiers.len() implies !spec_tier_eligible(#[trigger] tiers[k], quantity) by {
                if k < tiers.len() - 1 {
                    assert(tiers[k] == prefix[k]);
                } else {
                    assert(tiers[k] == last);
                }
            }
        } else {
            let t = bt->Some_0;
            if spec_tier_eligible(last, quantity) && (bp is None || last.quantity
                >= bp->Some_0.quantity) {
                assert(t == last);
                assert(tiers[tiers.len() - 1] == t);
            } else {
                assert(bt == bp);
                let j = choose|j: int| 0 <= j < prefix.len() && #[trigger] prefix[j] == t;
                assert(tiers[j] == t);
            }
            assert forall|k: int|
                0 <= k < tiers.len() && spec_tier_eligible(
                    #[trigger] tiers[k],
                    quantity,
                ) implies tiers[k].quantity <= t.quantity by {
                if k < tiers.len() - 1 {
                    assert(tiers[k] == prefix[k]);
                    if bp is None {
                        assert(!spec_tier_eligible(prefix[k], quantity));
                        assert(false);
                    }
                    assert(prefix[k].quantity <= bp->Some_0.quantity);
                    if spec_tier_eligible(last, quantity) && last.quantity
                        >= bp->Some_0.quantity {
                    } else {
                        assert(t == bp->Some_0);
                    }
                } else {
                    assert(tiers[k] == last);
                    if spec_tier_eligible(last, quantity) && (bp is None || last.quantity
                        >= bp->Some_0.quantity) {
                        assert(t == last);
                    } else {
                        assert(bp is Some && last.quantity < bp->Some_0.quantity);
                        assert(t == bp->Some_0);
                    }
                }
            }
        }
    }
}

/// The resolved price is what the minimization promises: none exactly when
/// no schedule prices the quantity, and otherwise some schedule's charge
/// that no other schedule undercuts.
pub proof fn lemma_best_price_minimum(ss: Seq<MintScheduleView>, quantity: u64)
    ensures
        spec_best_price(ss, quantity) is None <==> (forall|j: int|
            0 <= j < ss.len() ==> spec_schedule_price(#[trigger] ss[j], quantity) is None),
        spec_best_price(ss, quantity) matches Some(p) ==> {
            &&& exists|j: int|
                0 <= j < ss.len() && spec_schedule_price(#[trigger] ss[j], quantity) == Some(p)
            &&& forall|j: int|
                0 <= j < ss.len() && spec_schedule_price(#[trigger] ss[j], quantity) is Some ==> p
                    <= spec_schedule_price(ss[j], quantity)->Some_0
        },
    decreases ss.len(),
{
    if ss.len() > 0 {
        let prefix = ss.drop_last();
        let last = ss.last();
        lemma_best_price_minimum(prefix, quantity);
        let bp = spec_best_price(prefix, quantity);
        let bt = spec_best_price(ss, quantity);
        let lastp = spec_schedule_price(last, quantity);
        if bt is None {
            assert(bp is None && lastp is None);
            assert forall|j: int|
                0 <= j < ss.len() implies spec_schedule_price(#[trigger] ss[j], quantity)
                is None by {
                if j < ss.len() - 1 {
                    assert(ss[j] == prefix[j]);
                } else {
                    assert(ss[j] == last);
                }
            }
        } else {
            let p = bt->Some_0;
            if bp is None {
                assert(bt == lastp);
                assert(spec_schedule_price(ss[ss.len() - 1], quantity) == Some(p));
            } else if lastp is Some && lastp->Some_0 < bp->Some_0 {
                assert(p == lastp->Some_0);
                assert(spec_schedule_price(ss[ss.len() - 1], quantity) == Some(p));
            } else {
                assert(p == bp->Some_0);
                let j = choose|j: int|
                    0 <= j < prefix.len() && spec_schedule_price(#[trigger] prefix[j], quantity)
                        == Some(p);
                assert(spec_schedule_price(ss[j], quantity) == Some(p));
            }
            assert forall|j: int|
                0 <= j < ss.len() && spec_schedule_price(#[trigger] ss[j], quantity)
                    is Some implies p <= spec_schedule_price(ss[j], quantity)->Some_0 by {
                if j < ss.len() - 1 {
                    assert(ss[j] == prefix[j]);
                    if bp is None {
                        assert(spec_schedule_price(prefix[j], quantity) is None);
                        assert(false);
                    }
                    assert(bp->Some_0 <= spec_schedule_price(prefix[j], quantity)->Some_0);
                    assert(p <= bp->Some_0);
                } else {
                    assert(ss[j] == last);
                    assert(p <= lastp->Some_0);
                }
            }
        }
    }
}

/// A schedule's chosen tier is always one of the eligible tiers.
proof fn lemma_best_tier_eligible(tiers: Seq<BundlePrice>, quantity: u64)
    ensures
        spec_best_tier(tiers, quantity) matches Some(t) ==> spec_tier_eligible(t, quantity),
    decreases tiers.len(),
{
    if tiers.len() > 0 {
        lemma_best_tier_eligible(tiers.drop_last(), quantity);
    }
}

/// An eligible tier never charges more than `quantity * price` of itself and
/// always fits a `u128`: the bundle count is at most the requested quantity.
proof fn lemma_tier_total_bounds(t: BundlePrice, quantity: u64)
    requires
        spec_tier_eligible(t, quantity),
    ensures
        1 <= spec_bundle_count(t, quantity) <= quantity,
        0 <= spec_tier_total(t, quantity) < 0x100000000000000000000000000000000,
{
    let q = quantity as int;
    let b = t.quantity as int;
    assert((q + b - 1) / b <= q && (q + b - 1) / b >= 1) by (nonlinear_arith)
        requires
            1 <= b <= q,
    ;
    let c = spec_bundle_count(t, quantity);
    assert(c * t.price <= q * t.price) by (nonlinear_arith)
        requires
            1 <= c <= q,
            t.price >= 0,
    ;
    assert(q * t.price < 0x100000000000000000000000000000000) by (nonlinear_arith)
        requires
            0 <= q < 0x10000000000000000,
            0 <= t.price < 0x10000000000000000,
    ;
    assert(c * t.price >= 0) by (nonlinear_arith)
        requires
            c >= 1,
            t.price >= 0,
    ;
}

/// Does the schedule apply to this caller at this moment?
pub fn schedule_qualifies(s: &MintSchedule, now: u64, whitelisted: bool) -> (r: bool)
    ensures
        r == spec_qualifies(s.deep_view(), now, whitelisted),
{
    if !s.active {
        return false;
    }
    let time_ok = match (s.start_time, s.end_time) {
        (Some(start), Some(end)) => start <= now && now <= end,
        (Some(start), None) => start <= now,
        (None, Some(end)) => now <= end,
        (None, None) => true,
    };
    time_ok && (!s.whitelist_only || whitelisted)
}

/// Is at least one of the schedules open to this caller at this moment?
pub fn any_schedule_qualifies(ss: &Vec<MintSchedule>, now: u64, whitelisted: bool) -> (r: bool)
    ensures
        r == (spec_qualifying(ss.deep_view(), now, whitelisted).len() > 0),
{
    let ghost dv = ss.deep_view();
    let mut i: usize = 0;
    while i < ss.len()
        invariant
            0 <= i <= dv.len(),
            dv == ss.deep_view(),
            dv.len() == ss@.len(),
            spec_qualifying(dv.take(i as int), now, whitelisted).len() == 0,
        decreases dv.len() - i,
    {
        assert(dv.take(i + 1).drop_last() =~= dv.take(i as int));
        assert(dv.take(i + 1).last() == dv[i as int]);
        if schedule_qualifies(&ss[i], now, whitelisted) {
            proof {
                lemma_qualifying_prefix(dv, i as int + 1, now, whitelisted);
            }
            return true;
        }
        i += 1;
    }
    assert(dv.take(dv.len() as int) =~= dv);
    false
}

/// Once a prefix contains a qualifying schedule, the whole list does.
proof fn lemma_qualifying_prefix(ss: Seq<MintScheduleView>, n: int, now: u64, whitelisted: bool)
    requires
        0 <= n <= ss.len(),
        spec_qualifying(ss.take(n), now, whitelisted).len() > 0,
    ensures
        spec_qualifying(ss, now, whitelisted).len() > 0,
    decreases ss.len() - n,
{
    if n < ss.len() {
        assert(ss.take(n + 1).drop_last() =~= ss.take(n));
        lemma_qualifying_prefix(ss, n + 1, now, whitelisted);
    } else {
        assert(ss.take(n) =~= ss);
    }
}

/// The tier this schedule uses for the request, per `spec_best_tier`.
fn best_tier_of(tiers: &Vec<BundlePrice>, quantity: u64) -> (r: Option<BundlePrice>)
    ensures
        r == spec_best_tier(tiers@, quantity),
{
    let mut best: Option<BundlePrice> = None;
    let mut i: usize = 0;
    while i < tiers.len()
        invariant
            0 <= i <= tiers@.len(),
            best == spec_best_tier(tiers@.take(i as int), quantity),
        decreases tiers@.len() - i,
    {
        assert(tiers@.take(i + 1).drop_last() =~= tiers@.take(i as int));
        assert(tiers@.take(i + 1).last() == tiers@[i as int]);
        let t = tiers[i];
        if 1 <= t.quantity && t.quantity <= quantity {
            match best {
                None => {
                    best = Some(t);
                },
                Some(b) => {
                    if t.quantity >= b.quantity {
                        best = Some(t);
                    }
                },
            }
        }
        i += 1;
    }
    assert(tiers@.take(tiers@.len() as int) =~= tiers@);
    best
}

/// What this schedule charges for the request, if it has an eligible tier.
fn schedule_price_of(s: &MintSchedule, quantity: u64) -> (r: Option<u128>)
    ensures
        match spec_schedule_price(s.deep_view(), quantity) {
            None => r is None,
            Some(p) => r is Some && r->Some_0 == p,
        },
{
    proof {
        assert(s.deep_view().bundle_prices =~= s.bundle_prices@);
    }
    match best_tier_of(&s.bundle_prices, quantity) {
        None => None,
        Some(t) => {
            proof {
                lemma_best_tier_eligible(s.bundle_prices@, quantity);
                lemma_tier_total_bounds(t, quantity);
            }
            let count: u128 = ((quantity as u128) + (t.quantity as u128) - 1) / (
            t.quantity as u128);
            Some(count * (t.price as u128))
        },
    }
}

/// The minimum charge for `quantity` tokens across the schedules that qualify
/// for this caller at this moment; `None` when no qualifying schedule has an
/// eligible tier.
pub fn best_qualifying_price(
    ss: &Vec<MintSchedule>,
    quantity: u64,
    now: u64,
    whitelisted: bool,
) -> (r: Option<u128>)
    ensures
        match spec_best_price(spec_qualifying(ss.deep_view(), now, whitelisted), quantity) {
            None => r is None,
            Some(p) => r is Some && r->Some_0 == p,
        },
{
    let ghost dv = ss.deep_view();
    let mut best: Option<u128> = None;
    let mut i: usize = 0;
    while i < ss.len()
        invariant
            0 <= i <= dv.len(),
            dv == ss.deep_view(),
            dv.len() == ss@.len(),
            match spec_best_price(spec_qualifying(dv.take(i as int), now, whitelisted), quantity) {
                None => best is None,
                Some(p) => best is Some && best->Some_0 == p,
            },
        decreases dv.len() - i,
    {
        assert(dv.take(i + 1).drop_last() =~= dv.take(i as int));
        assert(dv.take(i + 1).last() == dv[i as int]);
        let ghost qualified_prefix = spec_qualifying(dv.take(i as int), now, whitelisted);
        if schedule_qualifies(&ss[i], now, whitelisted) {
            assert(spec_qualifying(dv.take(i + 1), now, whitelisted) == qualified_prefix.push(
                dv[i as int],
            ));
            assert(spec_qualifying(dv.take(i + 1), now, whitelisted).drop_last()
                =~= qualified_prefix);
            let price = schedule_price_of(&ss[i], quantity);
            match (best, price) {
                (None, p) => {
                    best = p;
                },
                (Some(_), None) => {},
                (Some(b), Some(p)) => {
                    if p < b {
                        best = Some(p);
                    }
                },
            }
        }
        i += 1;
    }
    assert(dv.take(dv.len() as int) =~= dv);
    best
}

} // verus!
