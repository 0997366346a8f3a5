//! The ledger store: token records and the per-owner index.
//!
//! Token ids are dense: the record with id `n` sits at position `n - 1`, ids
//! start at 1 and are never reused. Beside the records the store keeps the
//! ownership index, a list of per-owner entries with each owner's token ids
//! in ascending order. Well-formedness ties the two together: every token's
//! id appears in its owner's entry and in no other, so the index is a
//! strictly consistent view of the owner fields, and both are only ever
//! updated together by `issue` and `set_owner`.

use vstd::prelude::*;

use crate::types::Identity;
use crate::types::TransferRecord;
use vstd::pervasive::VecAdditionalExecFns;

verus! {

/// The descriptive fields a token carries.
#[derive(Debug)]
pub struct TokenMetadata {
    pub name: String,
    pub description: String,
    pub image_url: String,
}

/// The mathematical content of a `TokenMetadata`.
pub struct TokenMetadataView {
    pub name: Seq<char>,
    pub description: Seq<char>,
    pub image_url: Seq<char>,
}

impl DeepView for TokenMetadata {
    type V = TokenMetadataView;

    open spec fn deep_view(&self) -> TokenMetadataView {
        TokenMetadataView {
            name: self.name@,
            description: self.description@,
            image_url: self.image_url@,
        }
    }
}

impl TokenMetadata {
    /// A deep copy, equal to the original in view.
    pub fn duplicate(&self) -> (r: TokenMetadata)
        ensures
            r.deep_view() == self.deep_view(),
    {
        TokenMetadata {
            name: self.name.clone(),
            description: self.description.clone(),
            image_url: self.image_url.clone(),
        }
    }
}

/// One token: its id, owner, content reference, metadata and history.
#[derive(Debug)]
pub struct TokenRecord {
    pub token_id: u64,
    pub owner: Identity,
    /// The content asset this token was minted from; empty when none.
    pub asset_id: String,
    pub metadata: TokenMetadata,
    pub created_at: u64,
    pub transfer_history: Vec<TransferRecord>,
}

/// The mathematical content of a `TokenRecord`.
pub struct TokenRecordView {
    pub token_id: u64,
    pub owner: Identity,
    pub asset_id: Seq<char>,
    pub metadata: TokenMetadataView,
    pub created_at: u64,
    pub transfer_history: Seq<TransferRecord>,
}

impl DeepView for TokenRecord {
    type V = TokenRecordView;

    open spec fn deep_view(&self) -> TokenRecordView {
        TokenRecordView {
            token_id: self.token_id,
            owner: self.owner,
            asset_id: self.asset_id@,
            metadata: self.metadata.deep_view(),
            created_at: self.created_at,
            transfer_history: self.transfer_history@,
        }
    }
}

impl TokenRecord {
    /// A deep copy, equal to the original in view.
    pub fn duplicate(&self) -> (r: TokenRecord)
        ensures
            r.deep_view() == self.deep_view(),
    {
        let mut history: Vec<TransferRecord> = Vec::new();
        let mut i: usize = 0;
        while i < self.transfer_history.len()
            invariant
                0 <= i <= self.transfer_history@.len(),
                history@ == self.transfer_history@.take(i as int),
            decreases self.transfer_history@.len() - i,
        {
            history.push(self.transfer_history[i]);
            assert(history@ =~= self.transfer_history@.take(i + 1));
            i += 1;
        }
        assert(history@ =~= self.transfer_history@);
        TokenRecord {
            token_id: self.token_id,
            owner: self.owner,
            asset_id: self.asset_id.clone(),
            metadata: self.metadata.duplicate(),
            created_at: self.created_at,
            transfer_history: history,
        }
    }
}

/// One ownership-index entry: an owner and its token ids, ascending.
#[derive(Debug)]
pub struct OwnerEntry {
    pub owner: Identity,
    pub token_ids: Vec<u64>,
}

/// The mathematical content of an `OwnerEntry`.
pub struct OwnerEntryView {
    pub owner: Identity,
    pub token_ids: Seq<u64>,
}

impl DeepView for OwnerEntry {
    type V = OwnerEntryView;

    open spec fn deep_view(&self) -> OwnerEntryView {
        OwnerEntryView { owner: self.owner, token_ids: self.token_ids@ }
    }
}

/// Each element is strictly less than every later one.
pub open spec fn strictly_sorted(s: Seq<u64>) -> bool {
    forall|a: int, b: int| 0 <= a < b < s.len() ==> s[a] < s[b]
}

/// The position of `who`'s entry, scanning from position `i`; -1 when absent.
pub open spec fn entry_index_from(owns: Seq<OwnerEntryView>, who: Identity, i: int) -> int
    decreases owns.len() - i,
{
    if i < 0 || i >= owns.len() {
        -1
    } else if owns[i].owner == who {
        i
    } else {
        entry_index_from(owns, who, i + 1)
    }
}

/// The position of `who`'s entry in the index; -1 when absent.
pub open spec fn entry_index(owns: Seq<OwnerEntryView>, who: Identity) -> int {
    entry_index_from(owns, who, 0)
}

/// What `entry_index_from` finds: the first entry of `who` at or after `i`.
pub proof fn lemma_entry_index_from(owns: Seq<OwnerEntryView>, who: Identity, i: int)
    requires
        0 <= i <= owns.len(),
    ensures
        ({
            let r = entry_index_from(owns, who, i);
            ||| (r == -1 && forall|k: int| i <= k < owns.len() ==> (#[trigger] owns[k]).owner
                != who)
            ||| (i <= r < owns.len() && owns[r].owner == who && forall|k: int|
                i <= k < r ==> (#[trigger] owns[k]).owner != who)
        }),
    decreases owns.len() - i,
{
    if i < owns.len() && owns[i].owner != who {
        lemma_entry_index_from(owns, who, i + 1);
    }
}

/// What `entry_index` finds: the first entry of `who`, if any.
pub proof fn lemma_entry_index(owns: Seq<OwnerEntryView>, who: Identity)
    ensures
        ({
            let r = entry_index(owns, who);
            ||| (r == -1 && forall|k: int| 0 <= k < owns.len() ==> (#[trigger] owns[k]).owner
                != who)
            ||| (0 <= r < owns.len() && owns[r].owner == who && forall|k: int|
                0 <= k < r ==> (#[trigger] owns[k]).owner != who)
        }),
{
    lemma_entry_index_from(owns, who, 0);
}

/// Replacing an entry with one of the same owner moves no entry's position.
pub proof fn lemma_entry_index_update(
    owns: Seq<OwnerEntryView>,
    j: int,
    e: OwnerEntryView,
    who: Identity,
    i: int,
)
    requires
        0 <= j < owns.len(),
        owns[j].owner == e.owner,
        0 <= i <= owns.len(),
    ensures
        entry_index_from(owns.update(j, e), who, i) == entry_index_from(owns, who, i),
    decreases owns.len() - i,
{
    if i < owns.len() {
        if owns.update(j, e)[i].owner == who || owns[i].owner == who {
        } else {
        }
        if owns[i].owner != who {
            lemma_entry_index_update(owns, j, e, who, i + 1);
        }
    }
}

/// Appending an entry leaves present owners where they were; a newly present
/// owner is found at the end.
pub proof fn lemma_entry_index_push(
    owns: Seq<OwnerEntryView>,
    e: OwnerEntryView,
    who: Identity,
    i: int,
)
    requires
        0 <= i <= owns.len(),
    ensures
        entry_index_from(owns.push(e), who, i) == (if entry_index_from(owns, who, i) >= 0 {
            entry_index_from(owns, who, i)
        } else if e.owner == who {
            owns.len() as int
        } else {
            -1
        }),
    decreases owns.len() - i,
{
    if i < owns.len() {
        assert(owns.push(e)[i] == owns[i]);
        if owns[i].owner != who {
            lemma_entry_index_push(owns, e, who, i + 1);
        }
    } else {
        assert(owns.push(e)[owns.len() as int] == e);
        if e.owner != who {
            assert(entry_index_from(owns.push(e), who, owns.len() as int + 1) == -1);
        }
    }
}

/// A new ascending id list with `id` inserted at its place.
fn insert_sorted(v: &Vec<u64>, id: u64) -> (r: Vec<u64>)
    requires
        strictly_sorted(v@),
        !v@.contains(id),
    ensures
        strictly_sorted(r@),
        r@.len() == v@.len() + 1,
        forall|x: u64| r@.contains(x) <==> (v@.contains(x) || x == id),
{
    let mut r: Vec<u64> = Vec::new();
    let mut i: usize = 0;
    while i < v.len() && v[i] < id
        invariant
            0 <= i <= v@.len(),
            r@ == v@.take(i as int),
            forall|k: int| 0 <= k < i ==> #[trigger] v@[k] < id,
        decreases v@.len() - i,
    {
        r.push(v[i]);
        assert(r@ =~= v@.take(i + 1));
        i += 1;
    }
    let ghost cut = i as int;
    proof {
        if cut < v@.len() {
            assert(v@[cut] >= id);
            if v@[cut] == id {
                assert(v@.contains(id));
            }
            assert(v@[cut] > id);
        }
    }
    r.push(id);
    assert(r@ =~= v@.take(cut).push(id) + v@.subrange(cut, cut));
    while i < v.len()
        invariant
            0 <= cut <= i <= v@.len(),
            strictly_sorted(v@),
            forall|k: int| 0 <= k < cut ==> #[trigger] v@[k] < id,
            cut < v@.len() ==> v@[cut] > id,
            r@ == v@.take(cut).push(id) + v@.subrange(cut, i as int),
        decreases v@.len() - i,
    {
        let ghost pre = r@;
        r.push(v[i]);
        proof {
            assert(r@ =~= pre.push(v@[i as int]));
            assert(v@.subrange(cut, i as int).push(v@[i as int]) =~= v@.subrange(cut, i + 1)) by {
                let a = v@.subrange(cut, i as int).push(v@[i as int]);
                let b = v@.subrange(cut, i + 1);
                assert(a.len() == b.len());
                assert forall|k: int| 0 <= k < b.len() implies a[k] == b[k] by {
                    assert(b[k] == v@[cut + k]);
                    if k < i - cut {
                        assert(a[k] == v@.subrange(cut, i as int)[k]);
                        assert(v@.subrange(cut, i as int)[k] == v@[cut + k]);
                    } else {
                        assert(a[k] == v@[i as int]);
                    }
                }
            };
            assert(r@ =~= v@.take(cut).push(id) + v@.subrange(cut, i + 1));
        }
        i += 1;
    }
    proof {
        assert(r@ =~= v@.take(cut).push(id) + v@.subrange(cut, v@.len() as int));
        assert forall|a: int, b: int| 0 <= a < b < r@.len() implies r@[a] < r@[b] by {
            let idx = |p: int|
                if p < cut {
                    v@[p]
                } else if p == cut {
                    id
                } else {
                    v@[p - 1]
                };
            assert(r@[a] == idx(a));
            assert(r@[b] == idx(b));
            if a < cut && b > cut {
                assert(v@[a] < id);
                assert(v@[b - 1] >= v@[cut]) by {
                    if b - 1 > cut {
                        assert(v@[cut] < v@[b - 1]);
                    }
                }
            }
        }
        assert forall|x: u64| r@.contains(x) implies (v@.contains(x) || x == id) by {
            let a = choose|a: int| 0 <= a < r@.len() && r@[a] == x;
            if a < cut {
                assert(v@[a] == x);
            } else if a > cut {
                assert(v@[a - 1] == x);
            }
        }
        assert forall|x: u64| v@.contains(x) || x == id implies r@.contains(x) by {
            if x == id {
                assert(r@[cut] == id);
            } else {
                let a = choose|a: int| 0 <= a < v@.len() && v@[a] == x;
                if a < cut {
                    assert(r@[a] == x);
                } else {
                    assert(r@[a + 1] == x);
                }
            }
        }
    }
    r
}

/// A new ascending id list with `id` taken out.
fn remove_sorted(v: &Vec<u64>, id: u64) -> (r: Vec<u64>)
    requires
        strictly_sorted(v@),
        v@.contains(id),
    ensures
        strictly_sorted(r@),
        r@.len() == v@.len() - 1,
        forall|x: u64| r@.contains(x) <==> (v@.contains(x) && x != id),
{
    let mut r: Vec<u64> = Vec::new();
    let mut i: usize = 0;
    while i < v.len() && v[i] != id
        invariant
            0 <= i <= v@.len(),
            r@ == v@.take(i as int),
            forall|k: int| 0 <= k < i ==> #[trigger] v@[k] != id,
        decreases v@.len() - i,
    {
        r.push(v[i]);
        assert(r@ =~= v@.take(i + 1));
        i += 1;
    }
    proof {
        if i >= v@.len() {
            let a = choose|a: int| 0 <= a < v@.len() && v@[a] == id;
            assert(false);
        }
    }
    let ghost f = i as int;
    i += 1;
    while i < v.len()
        invariant
            f + 1 <= i <= v@.len(),
            0 <= f < v@.len(),
            v@[f] == id,
            strictly_sorted(v@),
            forall|k: int| 0 <= k < f ==> #[trigger] v@[k] != id,
            r@ == v@.take(f) + v@.subrange(f + 1, i as int),
        decreases v@.len() - i,
    {
        r.push(v[i]);
        assert(r@ =~= v@.take(f) + v@.subrange(f + 1, i + 1));
        i += 1;
    }
    proof {
        assert(r@ =~= v@.subrange(0, f) + v@.subrange(f + 1, v@.len() as int));
        assert forall|a: int, b: int| 0 <= a < b < r@.len() implies r@[a] < r@[b] by {
            let idx = |p: int|
                if p < f {
                    v@[p]
                } else {
                    v@[p + 1]
                };
            assert(r@[a] == idx(a));
            assert(r@[b] == idx(b));
        }
        assert forall|x: u64| r@.contains(x) implies (v@.contains(x) && x != id) by {
            let a = choose|a: int| 0 <= a < r@.len() && r@[a] == x;
            if a < f {
                assert(v@[a] == x);
                assert(a < f ==> v@[a] < v@[f]);
            } else {
                assert(v@[a + 1] == x);
                assert(v@[f] < v@[a + 1]);
            }
        }
        assert forall|x: u64| v@.contains(x) && x != id implies r@.contains(x) by {
            let a = choose|a: int| 0 <= a < v@.len() && v@[a] == x;
            if a < f {
                assert(r@[a] == x);
            } else if a > f {
                assert(r@[a - 1] == x);
            }
        }
    }
    r
}

/// No two index entries name the same owner.
pub open spec fn entries_distinct(owns: Seq<OwnerEntryView>) -> bool {
    forall|j: int, k: int|
        0 <= j < k < owns.len() ==> (#[trigger] owns[j]).owner != (#[trigger] owns[k]).owner
}

/// Every index entry lists its ids in ascending order.
pub open spec fn entries_sorted(owns: Seq<OwnerEntryView>) -> bool {
    forall|j: int| 0 <= j < owns.len() ==> strictly_sorted((#[trigger] owns[j]).token_ids)
}

/// The ids `who` owns according to the index; empty when it has no entry.
pub open spec fn owned_of(owns: Seq<OwnerEntryView>, who: Identity) -> Seq<u64> {
    let j = entry_index(owns, who);
    if j >= 0 {
        owns[j].token_ids
    } else {
        Seq::empty()
    }
}

/// With distinct owners, each entry is the one its own owner is found at.
pub proof fn lemma_entry_index_self(owns: Seq<OwnerEntryView>, j: int)
    requires
        entries_distinct(owns),
        0 <= j < owns.len(),
    ensures
        entry_index(owns, owns[j].owner) == j,
{
    lemma_entry_index(owns, owns[j].owner);
    let r = entry_index(owns, owns[j].owner);
    if r < 0 {
        assert(owns[j].owner == owns[j].owner);
        assert(false);
    }
    if r != j {
        assert(owns[r].owner == owns[j].owner);
        assert(false);
    }
}

/// An id is listed for `who` only if the id names an issued token whose
/// owner field is `who`.
pub open spec fn spec_entry_id_ok(toks: Seq<TokenRecordView>, who: Identity, id: u64) -> bool {
    1 <= id <= toks.len() && toks[id - 1].owner == who
}

/// A non-empty transfer history ends at the current owner.
pub open spec fn spec_history_ok(t: TokenRecordView) -> bool {
    t.transfer_history.len() > 0 ==> t.transfer_history.last().to == t.owner
}

/// The first `n` ids of `s` beyond the cursor, in order: strictly beyond it,
/// or at-or-beyond it when `inclusive`.
pub open spec fn spec_page(s: Seq<u64>, cursor: u64, n: nat, inclusive: bool) -> Seq<u64>
    decreases s.len(),
{
    if s.len() == 0 || n == 0 {
        Seq::empty()
    } else if (if inclusive {
        s[0] >= cursor
    } else {
        s[0] > cursor
    }) {
        seq![s[0]] + spec_page(s.drop_first(), cursor, (n - 1) as nat, inclusive)
    } else {
        spec_page(s.drop_first(), cursor, n, inclusive)
    }
}

/// Which ids a page admits: strictly beyond the cursor, or at-or-beyond it
/// when `inclusive`.
pub open spec fn spec_beyond_cursor(cursor: u64, inclusive: bool) -> spec_fn(u64) -> bool {
    |x: u64|
        if inclusive {
            x >= cursor
        } else {
            x > cursor
        }
}

/// A page is exactly a prefix of the filtered id sequence: the first `n` ids
/// beyond the cursor, in their original order. The cursor id itself is
/// admitted only by the inclusive reading — the whole asymmetry between the
/// per-owner listing (strictly beyond) and the collection-wide listing (at
/// or beyond).
pub proof fn lemma_page_is_filter_prefix(s: Seq<u64>, cursor: u64, n: nat, inclusive: bool)
    ensures
        ({
            let f = s.filter(spec_beyond_cursor(cursor, inclusive));
            spec_page(s, cursor, n, inclusive) == f.take(
                if n <= f.len() {
                    n as int
                } else {
                    f.len() as int
                },
            )
        }),
    decreases s.len(),
{
    let p = spec_beyond_cursor(cursor, inclusive);
    let f = s.filter(p);
    if s.len() == 0 {
        reveal(Seq::filter);
        assert(f =~= Seq::<u64>::empty());
        assert(spec_page(s, cursor, n, inclusive) =~= f.take(0));
    } else if n == 0 {
        assert(spec_page(s, cursor, n, inclusive) =~= f.take(0));
    } else {
        let rest = s.drop_first();
        let f1 = rest.filter(p);
        assert(s =~= seq![s[0]] + rest);
        rest.lemma_filter_prepend(s[0], p);
        assert(f == (if p(s[0]) {
            seq![s[0]]
        } else {
            Seq::<u64>::empty()
        }) + f1);
        if p(s[0]) {
            lemma_page_is_filter_prefix(rest, cursor, (n - 1) as nat, inclusive);
            let m = if n - 1 <= f1.len() {
                n - 1
            } else {
                f1.len() as int
            };
            assert(spec_page(s, cursor, n, inclusive) == seq![s[0]] + f1.take(m));
            assert(f.len() == 1 + f1.len());
            let whole = if n <= f.len() {
                n as int
            } else {
                f.len() as int
            };
            assert(whole == 1 + m);
            assert(seq![s[0]] + f1.take(m) =~= f.take(whole)) by {
                assert(f =~= seq![s[0]] + f1);
                assert forall|k: int| 0 <= k < whole implies f.take(whole)[k] == (seq![s[0]]
                    + f1.take(m))[k] by {
                    if k > 0 {
                        assert(f[k] == f1[k - 1]);
                    }
                }
            }
        } else {
            lemma_page_is_filter_prefix(rest, cursor, n, inclusive);
            assert(f =~= f1);
            assert(spec_page(s, cursor, n, inclusive) == spec_page(rest, cursor, n, inclusive));
        }
    }
}

/// The first `n` elements of `s` beyond the cursor, as a new vector.
fn page_ids(v: &Vec<u64>, cursor: u64, n: usize, inclusive: bool) -> (r: Vec<u64>)
    ensures
        r@ == spec_page(v@, cursor, n as nat, inclusive),
{
    let mut r: Vec<u64> = Vec::new();
    let mut i: usize = 0;
    proof {
        assert(v@.skip(0) =~= v@);
        assert(Seq::<u64>::empty() + spec_page(v@, cursor, n as nat, inclusive) =~= spec_page(
            v@,
            cursor,
            n as nat,
            inclusive,
        ));
    }
    while i < v.len() && r.len() < n
        invariant
            0 <= i <= v@.len(),
            r@.len() <= n,
            spec_page(v@, cursor, n as nat, inclusive) == r@ + spec_page(
                v@.skip(i as int),
                cursor,
                (n - r@.len()) as nat,
                inclusive,
            ),
        decreases v@.len() - i,
    {
        let ghost rest = v@.skip(i as int);
        proof {
            assert(rest[0] == v@[i as int]);
            assert(rest.drop_first() =~= v@.skip(i + 1));
        }
        let keep = if inclusive {
            v[i] >= cursor
        } else {
            v[i] > cursor
        };
        if keep {
            let ghost pre = r@;
            r.push(v[i]);
            proof {
                assert(pre + (seq![v@[i as int]] + spec_page(
                    v@.skip(i + 1),
                    cursor,
                    (n - pre.len() - 1) as nat,
                    inclusive,
                )) =~= r@ + spec_page(v@.skip(i + 1), cursor, (n - r@.len()) as nat, inclusive));
            }
        }
        i += 1;
    }
    proof {
        if r@.len() == n {
            assert(spec_page(v@.skip(i as int), cursor, 0, inclusive) =~= Seq::<u64>::empty());
        } else {
            assert(v@.skip(v@.len() as int) =~= Seq::<u64>::empty());
        }
        assert(r@ =~= spec_page(v@, cursor, n as nat, inclusive));
    }
    r
}

/// The ledger store: dense token records plus the per-owner index.
#[derive(Debug)]
pub struct TokenStore {
    pub tokens: Vec<TokenRecord>,
    pub owners: Vec<OwnerEntry>,
}

impl TokenStore {
    /// The token records, in id order: the record with id `n` is at `n - 1`.
    pub open spec fn toks(self) -> Seq<TokenRecordView> {
        self.tokens.deep_view()
    }

    /// The ownership-index entries.
    pub open spec fn owner_entries(self) -> Seq<OwnerEntryView> {
        self.owners.deep_view()
    }

    /// How many tokens have been issued.
    pub open spec fn spec_total(self) -> int {
        self.toks().len() as int
    }

    /// The id names an issued token.
    pub open spec fn spec_has(self, id: u64) -> bool {
        1 <= id <= self.toks().len()
    }

    /// The owner field of the token with this id.
    pub open spec fn spec_owner_of(self, id: u64) -> Identity
        recommends
            self.spec_has(id),
    {
        self.toks()[id - 1].owner
    }

    /// The ids the index lists for `who`, ascending.
    pub open spec fn spec_owned(self, who: Identity) -> Seq<u64> {
        owned_of(self.owner_entries(), who)
    }

    /// The index lists `id` for `who`.
    pub open spec fn spec_owns(self, who: Identity, id: u64) -> bool {
        self.spec_owned(who).contains(id)
    }

    /// The store invariant: ids are dense and start at 1; owners appear in
    /// the index at most once, with ascending id lists; every listed id is an
    /// issued token owned by that entry's owner; every issued token is listed
    /// for its owner; and each history ends at the current owner.
    pub open spec fn wf(self) -> bool {
        &&& forall|i: int|
            0 <= i < self.toks().len() ==> (#[trigger] self.toks()[i]).token_id == i + 1
        &&& entries_distinct(self.owner_entries())
        &&& entries_sorted(self.owner_entries())
        &&& forall|j: int, k: int|
            0 <= j < self.owner_entries().len() && 0 <= k
                < self.owner_entries()[j].token_ids.len() ==> spec_entry_id_ok(
                self.toks(),
                self.owner_entries()[j].owner,
                #[trigger] self.owner_entries()[j].token_ids[k],
            )
        &&& forall|i: int|
            0 <= i < self.toks().len() ==> self.spec_owns(
                (#[trigger] self.toks()[i]).owner,
                (i + 1) as u64,
            )
        &&& forall|i: int| 0 <= i < self.toks().len() ==> spec_history_ok(#[trigger] self.toks()[i])
    }

    /// An empty store.
    pub fn new() -> (r: TokenStore)
        ensures
            r.wf(),
            r.toks().len() == 0,
            r.owner_entries().len() == 0,
    {
        let r = TokenStore { tokens: Vec::new(), owners: Vec::new() };
        proof {
            assert(r.toks() =~= Seq::<TokenRecordView>::empty());
            assert(r.owner_entries() =~= Seq::<OwnerEntryView>::empty());
        }
        r
    }

    /// The position of `who`'s index entry, if it has one.
    fn find_entry(&self, who: Identity) -> (r: Option<usize>)
        ensures
            match r {
                Some(j) => j < self.owner_entries().len() && entry_index(self.owner_entries(), who)
                    == j as int,
                None => entry_index(self.owner_entries(), who) == -1,
            },
    {
        let ghost owns = self.owner_entries();
        let mut i: usize = 0;
        while i < self.owners.len()
            invariant
                0 <= i <= owns.len(),
                owns == self.owner_entries(),
                owns.len() == self.owners@.len(),
                forall|k: int| 0 <= k < i ==> (#[trigger] owns[k]).owner != who,
            decreases owns.len() - i,
        {
            proof {
                assert(owns[i as int] == self.owners@[i as int].deep_view());
            }
            if self.owners[i].owner.id == who.id {
                proof {
                    assert(self.owners@[i as int].owner == who);
                    lemma_entry_index(owns, who);
                    let r = entry_index(owns, who);
                    if r == -1 {
                        assert(owns[i as int].owner != who);
                        assert(false);
                    }
                    if r < i {
                        assert(owns[r].owner != who);
                        assert(false);
                    }
                    if r > i {
                        assert(owns[i as int].owner != who);
                        assert(false);
                    }
                }
                return Some(i);
            }
            i += 1;
        }
        proof {
            lemma_entry_index(owns, who);
            let r = entry_index(owns, who);
            if r >= 0 {
                assert(owns[r].owner != who);
                assert(false);
            }
        }
        None
    }

    /// Adds `id` to `who`'s index entry, creating the entry if absent.
    fn owner_entry_add(&mut self, who: Identity, id: u64)
        requires
            entries_distinct(old(self).owner_entries()),
            entries_sorted(old(self).owner_entries()),
            !owned_of(old(self).owner_entries(), who).contains(id),
        ensures
            final (self).tokens == old(self).tokens,
            entries_distinct(final (self).owner_entries()),
            entries_sorted(final (self).owner_entries()),
            ({
                let owns0 = old(self).owner_entries();
                let owns1 = final (self).owner_entries();
                let j = entry_index(owns0, who);
                if j >= 0 {
                    &&& owns1 == owns0.update(j, owns1[j])
                    &&& owns1[j].owner == who
                    &&& owns1[j].token_ids.len() == owns0[j].token_ids.len() + 1
                    &&& forall|x: u64|
                        owns1[j].token_ids.contains(x) <==> (owns0[j].token_ids.contains(x) || x
                            == id)
                } else {
                    &&& owns1 =~= owns0.push(OwnerEntryView { owner: who, token_ids: seq![id] })
                }
            }),
    {
        let ghost owns0 = self.owner_entries();
        match self.find_entry(who) {
            Some(j) => {
                proof {
                    lemma_entry_index(owns0, who);
                    assert(owns0[j as int] == self.owners@[j as int].deep_view());
                    assert(owns0[j as int].owner == who);
                    assert(owned_of(owns0, who) == owns0[j as int].token_ids);
                }
                let new_ids = insert_sorted(&self.owners[j].token_ids, id);
                let entry = OwnerEntry { owner: who, token_ids: new_ids };
                let ghost ev = entry.deep_view();
                self.owners.set(j, entry);
                proof {
                    let owns1 = self.owner_entries();
                    assert(owns1 =~= owns0.update(j as int, ev));
                    assert(owns1[j as int] == ev);
                    assert forall|a: int, b: int|
                        0 <= a < b < owns1.len() implies (#[trigger] owns1[a]).owner
                        != (#[trigger] owns1[b]).owner by {
                        assert(owns1[a].owner == owns0[a].owner);
                        assert(owns1[b].owner == owns0[b].owner);
                    }
                    assert forall|a: int|
                        0 <= a < owns1.len() implies strictly_sorted(
                        (#[trigger] owns1[a]).token_ids,
                    ) by {
                        if a != j {
                            assert(owns1[a] == owns0[a]);
                        }
                    }
                }
            },
            None => {
                proof {
                    lemma_entry_index(owns0, who);
                }
                let mut ids: Vec<u64> = Vec::new();
                ids.push(id);
                let entry = OwnerEntry { owner: who, token_ids: ids };
                let ghost ev = entry.deep_view();
                self.owners.push(entry);
                proof {
                    let owns1 = self.owner_entries();
                    assert(owns1 =~= owns0.push(ev));
                    assert(ev.token_ids =~= seq![id]);
                    assert forall|a: int, b: int|
                        0 <= a < b < owns1.len() implies (#[trigger] owns1[a]).owner
                        != (#[trigger] owns1[b]).owner by {
                        if b < owns0.len() {
                            assert(owns1[a] == owns0[a]);
                            assert(owns1[b] == owns0[b]);
                        } else {
                            assert(owns1[b] == ev);
                            assert(owns1[a] == owns0[a]);
                            assert(owns0[a].owner != who);
                        }
                    }
                    assert forall|a: int|
                        0 <= a < owns1.len() implies strictly_sorted(
                        (#[trigger] owns1[a]).token_ids,
                    ) by {
                        if a < owns0.len() {
                            assert(owns1[a] == owns0[a]);
                        } else {
                            assert(owns1[a] == ev);
                        }
                    }
                }
            },
        }
    }

    /// Takes `id` out of `who`'s index entry.
    fn owner_entry_remove(&mut self, who: Identity, id: u64)
        requires
            entries_distinct(old(self).owner_entries()),
            entries_sorted(old(self).owner_entries()),
            owned_of(old(self).owner_entries(), who).contains(id),
        ensures
            final (self).tokens == old(self).tokens,
            entries_distinct(final (self).owner_entries()),
            entries_sorted(final (self).owner_entries()),
            ({
                let owns0 = old(self).owner_entries();
                let owns1 = final (self).owner_entries();
                let j = entry_index(owns0, who);
                &&& 0 <= j < owns0.len()
                &&& owns1 == owns0.update(j, owns1[j])
                &&& owns1[j].owner == who
                &&& owns1[j].token_ids.len() == owns0[j].token_ids.len() - 1
                &&& forall|x: u64|
                    owns1[j].token_ids.contains(x) <==> (owns0[j].token_ids.contains(x) && x != id)
            }),
    {
        let ghost owns0 = self.owner_entries();
        proof {
            if entry_index(owns0, who) < 0 {
                assert(owned_of(owns0, who) =~= Seq::<u64>::empty());
                assert(false);
            }
        }
        let j = match self.find_entry(who) {
            Some(j) => j,
            None => {
                proof {
                    assert(false);
                }
                0
            },
        };
        proof {
            lemma_entry_index(owns0, who);
            assert(owns0[j as int] == self.owners@[j as int].deep_view());
            assert(owns0[j as int].owner == who);
            assert(owned_of(owns0, who) == owns0[j as int].token_ids);
        }
        let new_ids = remove_sorted(&self.owners[j].token_ids, id);
        let entry = OwnerEntry { owner: who, token_ids: new_ids };
        let ghost ev = entry.deep_view();
        self.owners.set(j, entry);
        proof {
            let owns1 = self.owner_entries();
            assert(owns1 =~= owns0.update(j as int, ev));
            assert(owns1[j as int] == ev);
            assert forall|a: int, b: int|
                0 <= a < b < owns1.len() implies (#[trigger] owns1[a]).owner != (#[trigger] owns1[
                b]).owner by {
                assert(owns1[a].owner == owns0[a].owner);
                assert(owns1[b].owner == owns0[b].owner);
            }
            assert forall|a: int|
                0 <= a < owns1.len() implies strictly_sorted((#[trigger] owns1[a]).token_ids) by {
                if a != j {
                    assert(owns1[a] == owns0[a]);
                }
            }
        }
    }

    /// Issues the next token to `owner` and returns its id, one more than the
    /// count issued before; the record and the owner's index entry are
    /// created together.
    pub fn issue(
        &mut self,
        owner: Identity,
        asset_id: String,
        metadata: TokenMetadata,
        created_at: u64,
    ) -> (id: u64)
        requires
            old(self).wf(),
            old(self).toks().len() < u64::MAX,
        ensures
            final (self).wf(),
            id == old(self).toks().len() + 1,
            final (self).toks() == old(self).toks().push(
                TokenRecordView {
                    token_id: id,
                    owner,
                    asset_id: asset_id@,
                    metadata: metadata.deep_view(),
                    created_at,
                    transfer_history: Seq::empty(),
                },
            ),
            forall|who: Identity, x: u64|
                #[trigger] final (self).spec_owns(who, x) <==> (old(self).spec_owns(who, x) || (who
                    == owner && x == id)),
    {
        let ghost toks0 = self.toks();
        let ghost owns0 = self.owner_entries();
        let id = self.tokens.len() as u64 + 1;
        let record = TokenRecord {
            token_id: id,
            owner,
            asset_id,
            metadata,
            created_at,
            transfer_history: Vec::new(),
        };
        let ghost rv = record.deep_view();
        proof {
            assert(rv.transfer_history =~= Seq::<TransferRecord>::empty());
            // No entry can list the fresh id yet: listed ids name issued tokens.
            lemma_entry_index(owns0, owner);
            let j = entry_index(owns0, owner);
            if j >= 0 && owns0[j].token_ids.contains(id) {
                let k = choose|k: int|
                    0 <= k < owns0[j].token_ids.len() && owns0[j].token_ids[k] == id;
                assert(spec_entry_id_ok(toks0, owns0[j].owner, owns0[j].token_ids[k]));
                assert(false);
            }
        }
        self.tokens.push(record);
        proof {
            assert(self.toks() =~= toks0.push(rv));
        }
        self.owner_entry_add(owner, id);
        proof {
            let toks1 = self.toks();
            let owns1 = self.owner_entries();
            let j = entry_index(owns0, owner);
            lemma_entry_index(owns0, owner);
            if j >= 0 {
                lemma_entry_index_update(owns0, j, owns1[j], owner, 0);
            } else {
                lemma_entry_index_push(owns0, owns1.last(), owner, 0);
            }
            // Ownership listing after the add, for every identity.
            assert forall|who: Identity, x: u64| #[trigger]
                self.spec_owns(who, x) <==> (old(self).spec_owns(who, x) || (who == owner && x
                    == id)) by {
                lemma_entry_index(owns0, who);
                if j >= 0 {
                    lemma_entry_index_update(owns0, j, owns1[j], who, 0);
                    if who == owner {
                        assert(owns0[j].owner == owner);
                        assert(entry_index(owns0, who) == j);
                    } else {
                        let jw = entry_index(owns0, who);
                        if jw >= 0 {
                            assert(jw != j);
                            assert(owns1[jw] == owns0[jw]);
                        }
                    }
                } else {
                    lemma_entry_index_push(owns0, owns1.last(), who, 0);
                    assert(owns1 =~= owns0.push(owns1.last()));
                    if who == owner {
                        assert(entry_index(owns1, who) == owns0.len());
                        assert(owned_of(owns1, who) =~= seq![id]);
                        if old(self).spec_owns(who, x) {
                            assert(false);
                        }
                        assert(owned_of(owns1, who).contains(x) <==> x == id) by {
                            if owned_of(owns1, who).contains(x) {
                                let k = choose|k: int|
                                    0 <= k < owned_of(owns1, who).len() && owned_of(owns1, who)[k]
                                        == x;
                            }
                            if x == id {
                                assert(owned_of(owns1, who)[0] == id);
                            }
                        }
                    } else {
                        let jw = entry_index(owns0, who);
                        if jw >= 0 {
                            assert(owns1[jw] == owns0[jw]);
                        }
                    }
                }
            }
            // Well-formedness of the grown store.
            assert forall|i: int|
                0 <= i < toks1.len() implies (#[trigger] toks1[i]).token_id == i + 1 by {
                if i < toks0.len() {
                    assert(toks1[i] == toks0[i]);
                }
            }
            assert forall|a: int, k: int|
                0 <= a < owns1.len() && 0 <= k < owns1[a].token_ids.len() implies spec_entry_id_ok(
                toks1,
                owns1[a].owner,
                #[trigger] owns1[a].token_ids[k],
            ) by {
                let x = owns1[a].token_ids[k];
                if j >= 0 {
                    if a != j {
                        assert(owns1[a] == owns0[a]);
                        assert(spec_entry_id_ok(toks0, owns0[a].owner, x));
                        assert(toks1[x - 1] == toks0[x - 1]);
                    } else {
                        assert(owns1[a].token_ids.contains(x));
                        if x == id {
                            assert(toks1[id - 1] == rv);
                        } else {
                            assert(owns0[j].token_ids.contains(x));
                            let k0 = choose|k0: int|
                                0 <= k0 < owns0[j].token_ids.len() && owns0[j].token_ids[k0] == x;
                            assert(spec_entry_id_ok(toks0, owns0[j].owner, owns0[j].token_ids[k0]));
                            assert(toks1[x - 1] == toks0[x - 1]);
                        }
                    }
                } else {
                    if a < owns0.len() {
                        assert(owns1[a] == owns0[a]);
                        assert(spec_entry_id_ok(toks0, owns0[a].owner, x));
                        assert(toks1[x - 1] == toks0[x - 1]);
                    } else {
                        assert(owns1[a] == owns1.last());
                        assert(owns1[a].token_ids =~= seq![id]);
                        assert(x == id);
                        assert(toks1[id - 1] == rv);
                    }
                }
            }
            assert forall|i: int|
                0 <= i < toks1.len() implies self.spec_owns(
                (#[trigger] toks1[i]).owner,
                (i + 1) as u64,
            ) by {
                if i < toks0.len() {
                    assert(toks1[i] == toks0[i]);
                    assert(old(self).spec_owns(toks0[i].owner, (i + 1) as u64));
                } else {
                    assert(toks1[i] == rv);
                    assert(self.spec_owns(owner, id));
                }
            }
            assert forall|i: int|
                0 <= i < toks1.len() implies spec_history_ok(#[trigger] toks1[i]) by {
                if i < toks0.len() {
                    assert(toks1[i] == toks0[i]);
                }
            }
        }
        id
    }

    /// Moves the token to `new_owner`: the owner field, the two index
    /// entries, and the transfer history change together, atomically per
    /// call.
    pub fn set_owner(&mut self, token_id: u64, new_owner: Identity, timestamp: u64)
        requires
            old(self).wf(),
            old(self).spec_has(token_id),
        ensures
            final (self).wf(),
            final (self).toks() == old(self).toks().update(
                token_id - 1,
                TokenRecordView {
                    token_id,
                    owner: new_owner,
                    asset_id: old(self).toks()[token_id - 1].asset_id,
                    metadata: old(self).toks()[token_id - 1].metadata,
                    created_at: old(self).toks()[token_id - 1].created_at,
                    transfer_history: old(self).toks()[token_id - 1].transfer_history.push(
                        TransferRecord {
                            from: old(self).toks()[token_id - 1].owner,
                            to: new_owner,
                            timestamp,
                        },
                    ),
                },
            ),
            forall|who: Identity, x: u64|
                #[trigger] final (self).spec_owns(who, x) <==> (if x == token_id {
                    who == new_owner
                } else {
                    old(self).spec_owns(who, x)
                }),
    {
        let ghost toks0 = self.toks();
        let ghost owns0 = self.owner_entries();
        let idx = (token_id - 1) as usize;
        proof {
            assert(toks0[idx as int] == self.tokens@[idx as int].deep_view());
        }
        let old_owner = self.tokens[idx].owner;
        // Take the record out, rewrite owner and history, put it back.
        let mut record = TokenRecord {
            token_id: 0,
            owner: old_owner,
            asset_id: String::new(),
            metadata: TokenMetadata {
                name: String::new(),
                description: String::new(),
                image_url: String::new(),
            },
            created_at: 0,
            transfer_history: Vec::new(),
        };
        self.tokens.set_and_swap(idx, &mut record);
        record.owner = new_owner;
        record.transfer_history.push(TransferRecord { from: old_owner, to: new_owner, timestamp });
        let ghost rv = record.deep_view();
        self.tokens.set(idx, record);
        proof {
            assert(self.toks() =~= toks0.update(idx as int, rv));
            assert(rv.transfer_history =~= toks0[idx as int].transfer_history.push(
                TransferRecord { from: old_owner, to: new_owner, timestamp },
            ));
        }
        let ghost toks1 = self.toks();
        // The index: out of the old owner's entry, into the new owner's.
        proof {
            assert(old(self).toks()[token_id - 1].owner == old_owner);
            assert(old(self).spec_owns(
                old(self).toks()[token_id - 1].owner,
                ((token_id - 1) + 1) as u64,
            ));
            assert(old(self).spec_owns(old_owner, token_id));
        }
        self.owner_entry_remove(old_owner, token_id);
        let ghost ownsr = self.owner_entries();
        let ghost jr = entry_index(owns0, old_owner);
        proof {
            lemma_entry_index(owns0, old_owner);
            lemma_entry_index_update(owns0, jr, ownsr[jr], new_owner, 0);
            if entry_index(ownsr, new_owner) >= 0 {
                let ja = entry_index(ownsr, new_owner);
                lemma_entry_index(ownsr, new_owner);
                if ja == jr {
                    assert(ownsr[jr].owner == old_owner);
                    assert(new_owner == old_owner);
                } else {
                    assert(ownsr[ja] == owns0[ja]);
                    if owned_of(ownsr, new_owner).contains(token_id) {
                        let k = choose|k: int|
                            0 <= k < owns0[ja].token_ids.len() && owns0[ja].token_ids[k]
                                == token_id;
                        assert(spec_entry_id_ok(toks0, owns0[ja].owner, token_id));
                        assert(new_owner == old_owner);
                        assert(jr == ja) by {
                            lemma_entry_index_self(owns0, ja);
                        }
                        assert(false);
                    }
                }
            }
        }
        self.owner_entry_add(new_owner, token_id);
        proof {
            let owns2 = self.owner_entries();
            let ja = entry_index(ownsr, new_owner);
            lemma_entry_index(ownsr, new_owner);
            if ja >= 0 {
                lemma_entry_index_update(ownsr, ja, owns2[ja], new_owner, 0);
            } else {
                lemma_entry_index_push(ownsr, owns2.last(), new_owner, 0);
                assert(owns2 =~= ownsr.push(owns2.last()));
            }
            // Ownership listing after both index edits, for every identity.
            assert forall|who: Identity, x: u64| #[trigger]
                self.spec_owns(who, x) <==> (if x == token_id {
                    who == new_owner
                } else {
                    old(self).spec_owns(who, x)
                }) by {
                lemma_entry_index(owns0, who);
                lemma_entry_index(ownsr, who);
                lemma_entry_index_update(owns0, jr, ownsr[jr], who, 0);
                if ja >= 0 {
                    lemma_entry_index_update(ownsr, ja, owns2[ja], who, 0);
                } else {
                    lemma_entry_index_push(ownsr, owns2.last(), who, 0);
                }
                let jw = entry_index(owns0, who);
                // owned through the removal step
                if who == old_owner {
                    assert(jw == jr);
                    assert(owned_of(ownsr, who) == ownsr[jr].token_ids);
                } else if jw >= 0 {
                    assert(jw != jr) by {
                        if jw == jr {
                            assert(owns0[jr].owner == old_owner);
                        }
                    }
                    assert(ownsr[jw] == owns0[jw]);
                    assert(owned_of(ownsr, who) == owned_of(owns0, who));
                } else {
                    assert(owned_of(ownsr, who) =~= Seq::<u64>::empty());
                    assert(owned_of(owns0, who) =~= Seq::<u64>::empty());
                }
                // owned through the addition step
                if who == new_owner {
                    if ja >= 0 {
                        assert(entry_index(ownsr, who) == ja);
                        assert(owned_of(owns2, who) == owns2[ja].token_ids);
                    } else {
                        assert(entry_index(owns2, who) == ownsr.len());
                        assert(owned_of(owns2, who) == owns2.last().token_ids);
                        assert(owns2.last().token_ids =~= seq![token_id]);
                        assert(owned_of(owns2, who).contains(token_id)) by {
                            assert(owned_of(owns2, who)[0] == token_id);
                        }
                        if owned_of(owns2, who).contains(x) && x != token_id {
                            let k = choose|k: int|
                                0 <= k < owned_of(owns2, who).len() && owned_of(owns2, who)[k]
                                    == x;
                            assert(false);
                        }
                    }
                } else {
                    let jwr = entry_index(ownsr, who);
                    if jwr >= 0 {
                        if ja >= 0 {
                            assert(jwr != ja) by {
                                if jwr == ja {
                                    assert(ownsr[ja].owner == new_owner);
                                }
                            }
                            assert(owns2[jwr] == ownsr[jwr]);
                        } else {
                            assert(owns2[jwr] == ownsr[jwr]);
                        }
                        assert(owned_of(owns2, who) == owned_of(ownsr, who));
                    } else {
                        assert(owned_of(owns2, who) =~= Seq::<u64>::empty());
                        if ja >= 0 {
                            assert(owned_of(ownsr, who) =~= Seq::<u64>::empty());
                        } else {
                            assert(owned_of(ownsr, who) =~= Seq::<u64>::empty());
                        }
                    }
                }
                // the old owner's entry no longer lists the id; others never did
                if x == token_id && who != new_owner && self.spec_owns(who, x) {
                    assert(who != old_owner || !owned_of(ownsr, who).contains(token_id));
                    if who != old_owner {
                        assert(owned_of(owns0, who).contains(token_id));
                        let jx = entry_index(owns0, who);
                        let k = choose|k: int|
                            0 <= k < owns0[jx].token_ids.len() && owns0[jx].token_ids[k]
                                == token_id;
                        assert(spec_entry_id_ok(toks0, owns0[jx].owner, token_id));
                        assert(who == old_owner);
                    }
                    assert(false);
                }
            }
            // Well-formedness of the rewritten store.
            assert forall|i: int|
                0 <= i < toks1.len() implies (#[trigger] toks1[i]).token_id == i + 1 by {
                if i != idx {
                    assert(toks1[i] == toks0[i]);
                }
            }
            assert forall|a: int, k: int|
                0 <= a < owns2.len() && 0 <= k < owns2[a].token_ids.len() implies spec_entry_id_ok(
                toks1,
                owns2[a].owner,
                #[trigger] owns2[a].token_ids[k],
            ) by {
                let x = owns2[a].token_ids[k];
                assert(owns2[a].token_ids.contains(x));
                lemma_entry_index_self(owns2, a);
                assert(self.spec_owns(owns2[a].owner, x));
                if x == token_id {
                    assert(owns2[a].owner == new_owner);
                    assert(idx as int == token_id - 1);
                    assert(toks1 == toks0.update(idx as int, rv));
                    assert(toks1[x - 1] == rv);
                    assert(rv.owner == new_owner);
                } else {
                    assert(old(self).spec_owns(owns2[a].owner, x));
                    let jx = entry_index(owns0, owns2[a].owner);
                    lemma_entry_index(owns0, owns2[a].owner);
                    let k0 = choose|k0: int|
                        0 <= k0 < owns0[jx].token_ids.len() && owns0[jx].token_ids[k0] == x;
                    assert(spec_entry_id_ok(toks0, owns0[jx].owner, x));
                    assert(toks1[x - 1] == toks0[x - 1]);
                }
            }
            assert forall|i: int|
                0 <= i < toks1.len() implies self.spec_owns(
                (#[trigger] toks1[i]).owner,
                (i + 1) as u64,
            ) by {
                if i == idx {
                    assert(toks1[i].owner == new_owner);
                    assert(self.spec_owns(new_owner, token_id));
                } else {
                    assert(toks1[i] == toks0[i]);
                    assert(old(self).spec_owns(toks0[i].owner, (i + 1) as u64));
                    assert((i + 1) as u64 != token_id);
                }
            }
            assert forall|i: int|
                0 <= i < toks1.len() implies spec_history_ok(#[trigger] toks1[i]) by {
                if i != idx {
                    assert(toks1[i] == toks0[i]);
                }
            }
        }
    }
}

/// The dense id sequence `1, 2, ..., n`.
pub open spec fn all_token_ids(n: int) -> Seq<u64> {
    Seq::new(n as nat, |i: int| (i + 1) as u64)
}

impl TokenStore {
    /// How many tokens exist.
    pub fn total_supply(&self) -> (r: u64)
        requires
            self.toks().len() <= u64::MAX,
        ensures
            r == self.spec_total(),
    {
        self.tokens.len() as u64
    }

    /// The owner of the token, present exactly for issued ids.
    pub fn get_owner(&self, token_id: u64) -> (r: Option<Identity>)
        ensures
            self.spec_has(token_id) ==> r == Some(self.spec_owner_of(token_id)),
            !self.spec_has(token_id) ==> r is None,
    {
        if 1 <= token_id && token_id <= self.tokens.len() as u64 {
            let idx = (token_id - 1) as usize;
            proof {
                assert(self.toks()[idx as int] == self.tokens@[idx as int].deep_view());
            }
            Some(self.tokens[idx].owner)
        } else {
            None
        }
    }

    /// A copy of the token's record, present exactly for issued ids.
    pub fn get_token(&self, token_id: u64) -> (r: Option<TokenRecord>)
        ensures
            self.spec_has(token_id) ==> r is Some && r->Some_0.deep_view() == self.toks()[token_id
                - 1],
            !self.spec_has(token_id) ==> r is None,
    {
        if 1 <= token_id && token_id <= self.tokens.len() as u64 {
            let idx = (token_id - 1) as usize;
            proof {
                assert(self.toks()[idx as int] == self.tokens@[idx as int].deep_view());
            }
            Some(self.tokens[idx].duplicate())
        } else {
            None
        }
    }

    /// The token's transfer history; empty for ids never issued.
    pub fn transfer_history_of(&self, token_id: u64) -> (r: Vec<TransferRecord>)
        ensures
            self.spec_has(token_id) ==> r@ == self.toks()[token_id - 1].transfer_history,
            !self.spec_has(token_id) ==> r@ == Seq::<TransferRecord>::empty(),
    {
        if 1 <= token_id && token_id <= self.tokens.len() as u64 {
            let idx = (token_id - 1) as usize;
            proof {
                assert(self.toks()[idx as int] == self.tokens@[idx as int].deep_view());
            }
            let history = &self.tokens[idx].transfer_history;
            let mut r: Vec<TransferRecord> = Vec::new();
            let mut i: usize = 0;
            while i < history.len()
                invariant
                    0 <= i <= history@.len(),
                    r@ == history@.take(i as int),
                decreases history@.len() - i,
            {
                r.push(history[i]);
                assert(r@ =~= history@.take(i + 1));
                i += 1;
            }
            assert(r@ =~= history@);
            r
        } else {
            let r: Vec<TransferRecord> = Vec::new();
            assert(r@ =~= Seq::<TransferRecord>::empty());
            r
        }
    }

    /// How many tokens the index lists for `who`.
    pub fn balance_of(&self, who: Identity) -> (r: u64)
        requires
            self.spec_owned(who).len() <= u64::MAX,
        ensures
            r == self.spec_owned(who).len(),
    {
        match self.find_entry(who) {
            Some(j) => {
                proof {
                    assert(self.owner_entries()[j as int] == self.owners@[j as int].deep_view());
                }
                self.owners[j].token_ids.len() as u64
            },
            None => {
                proof {
                    assert(self.spec_owned(who) =~= Seq::<u64>::empty());
                }
                0
            },
        }
    }

    /// Up to `n` of `who`'s token ids strictly beyond the cursor, ascending.
    pub fn owned_page(&self, who: Identity, cursor: u64, n: usize) -> (r: Vec<u64>)
        ensures
            r@ == spec_page(self.spec_owned(who), cursor, n as nat, false),
    {
        match self.find_entry(who) {
            Some(j) => {
                proof {
                    assert(self.owner_entries()[j as int] == self.owners@[j as int].deep_view());
                }
                page_ids(&self.owners[j].token_ids, cursor, n, false)
            },
            None => {
                let r: Vec<u64> = Vec::new();
                proof {
                    assert(self.spec_owned(who) =~= Seq::<u64>::empty());
                    assert(r@ =~= spec_page(self.spec_owned(who), cursor, n as nat, false));
                }
                r
            },
        }
    }

    /// Up to `n` token ids at or beyond the cursor, across all owners,
    /// ascending.
    pub fn all_ids_page(&self, cursor: u64, n: usize) -> (r: Vec<u64>)
        requires
            self.wf(),
            self.toks().len() <= u64::MAX,
        ensures
            r@ == spec_page(all_token_ids(self.spec_total()), cursor, n as nat, true),
    {
        let total = self.tokens.len();
        let mut ids: Vec<u64> = Vec::new();
        let mut i: usize = 0;
        while i < total
            invariant
                0 <= i <= total == self.toks().len(),
                self.toks().len() <= u64::MAX,
                ids@ == all_token_ids(self.spec_total()).take(i as int),
            decreases total - i,
        {
            ids.push((i as u64) + 1);
            assert(ids@ =~= all_token_ids(self.spec_total()).take(i + 1));
            i += 1;
        }
        assert(ids@ =~= all_token_ids(self.spec_total()));
        page_ids(&ids, cursor, n, true)
    }
}

impl TokenStore {
    /// All ids the index lists for `who`, ascending.
    pub fn owned_ids(&self, who: Identity) -> (r: Vec<u64>)
        ensures
            r@ == self.spec_owned(who),
    {
        match self.find_entry(who) {
            Some(j) => {
                proof {
                    assert(self.owner_entries()[j as int] == self.owners@[j as int].deep_view());
                }
                let ids = &self.owners[j].token_ids;
                let mut r: Vec<u64> = Vec::new();
                let mut i: usize = 0;
                while i < ids.len()
                    invariant
                        0 <= i <= ids@.len(),
                        r@ == ids@.take(i as int),
                    decreases ids@.len() - i,
                {
                    r.push(ids[i]);
                    assert(r@ =~= ids@.take(i + 1));
                    i += 1;
                }
                assert(r@ =~= ids@);
                r
            },
            None => {
                let r: Vec<u64> = Vec::new();
                proof {
                    assert(self.spec_owned(who) =~= Seq::<u64>::empty());
                }
                r
            },
        }
    }
}

/// Every id a well-formed store lists for an owner names an issued token of
/// that owner.
pub proof fn lemma_owned_ids_valid(store: TokenStore, who: Identity)
    requires
        store.wf(),
    ensures
        forall|k: int|
            0 <= k < store.spec_owned(who).len() ==> {
                let id = #[trigger] store.spec_owned(who)[k];
                store.spec_has(id) && store.spec_owner_of(id) == who
            },
{
    let owns = store.owner_entries();
    lemma_entry_index(owns, who);
    let j = entry_index(owns, who);
    if j >= 0 {
        assert forall|k: int| 0 <= k < store.spec_owned(who).len() implies {
            let id = #[trigger] store.spec_owned(who)[k];
            store.spec_has(id) && store.spec_owner_of(id) == who
        } by {
            assert(spec_entry_id_ok(store.toks(), owns[j].owner, owns[j].token_ids[k]));
        }
    }
}

/// In an ascending list of ids drawn from `1..=n` the position bounds the
/// value, so the list holds at most `n` ids.
pub proof fn lemma_owned_len_bound(store: TokenStore, who: Identity)
    requires
        store.wf(),
    ensures
        store.spec_owned(who).len() <= store.toks().len(),
{
    let owned = store.spec_owned(who);
    lemma_owned_ids_valid(store, who);
    let owns = store.owner_entries();
    lemma_entry_index(owns, who);
    if owned.len() > 0 {
        assert forall|k: int| 0 <= k < owned.len() implies owned[k] >= k + 1 by {
            lemma_sorted_position_bound(owned, k);
        }
        assert(owned[owned.len() - 1] >= owned.len());
        assert(store.spec_has(owned[owned.len() - 1]));
    }
}

/// In a strictly ascending list of ids that are all at least 1, the entry at
/// position `k` is at least `k + 1`.
proof fn lemma_sorted_position_bound(s: Seq<u64>, k: int)
    requires
        strictly_sorted(s),
        forall|i: int| 0 <= i < s.len() ==> #[trigger] s[i] >= 1,
        0 <= k < s.len(),
    ensures
        s[k] >= k + 1,
    decreases k,
{
    if k > 0 {
        lemma_sorted_position_bound(s, k - 1);
        assert(s[k - 1] < s[k]);
    }
}

/// A well-formed store holds at most `u64::MAX` tokens: ids are dense `u64`
/// values starting at 1.
pub proof fn lemma_store_len_bound(store: TokenStore)
    requires
        store.wf(),
    ensures
        store.toks().len() <= u64::MAX,
{
    if store.toks().len() > u64::MAX {
        assert(store.toks()[u64::MAX as int].token_id == u64::MAX as int + 1);
    }
}

/// Ownership exclusivity: an issued token is listed in exactly one
/// identity's index entry, and that identity is the token's owner field —
/// whatever sequence of well-formedness-preserving operations produced the
/// store.
pub proof fn lemma_ownership_exclusive(store: TokenStore, token_id: u64)
    requires
        store.wf(),
        store.spec_has(token_id),
    ensures
        store.spec_owns(store.spec_owner_of(token_id), token_id),
        forall|who: Identity|
            who != store.spec_owner_of(token_id) ==> !(#[trigger] store.spec_owns(who, token_id)),
        forall|who: Identity, a: int, b: int|
            0 <= a < b < store.spec_owned(who).len() ==> #[trigger] store.spec_owned(who)[a]
                != #[trigger] store.spec_owned(who)[b],
{
    assert forall|who: Identity, a: int, b: int|
        0 <= a < b < store.spec_owned(who).len() implies #[trigger] store.spec_owned(who)[a]
        != #[trigger] store.spec_owned(who)[b] by {
        lemma_entry_index(store.owner_entries(), who);
        assert(strictly_sorted(store.spec_owned(who)));
    }
    let toks = store.toks();
    let owns = store.owner_entries();
    assert(store.spec_owns(toks[token_id - 1].owner, token_id));
    assert forall|who: Identity|
        who != store.spec_owner_of(token_id) implies !(#[trigger] store.spec_owns(
        who,
        token_id,
    )) by {
        if store.spec_owns(who, token_id) {
            lemma_entry_index(owns, who);
            let j = entry_index(owns, who);
            assert(owns[j].token_ids.contains(token_id));
            let k = choose|k: int|
                0 <= k < owns[j].token_ids.len() && owns[j].token_ids[k] == token_id;
            assert(spec_entry_id_ok(toks, owns[j].owner, owns[j].token_ids[k]));
            assert(false);
        }
    }
}

} // verus!

