//! The approval engine: delegated-transfer grants with expiry.
//!
//! A token-scoped grant is keyed by (token id, spender); a collection-scoped
//! grant by (owner, spender). A grant with no expiry never expires; one with
//! expiry `t` is valid while the current time is at or below `t`. A
//! token-scoped grant is deleted the moment it authorizes a transfer;
//! collection-scoped grants are never consumed, only revoked or expired.

use vstd::prelude::*;

use crate::types::ApprovalInfo;
use crate::types::Identity;
use vstd::pervasive::VecAdditionalExecFns;

verus! {

/// One token-scoped grant.
#[derive(Clone, Copy, Debug, PartialEq, Eq, Structural)]
pub struct TokenApprovalEntry {
    pub token_id: u64,
    pub spender: Identity,
    pub info: ApprovalInfo,
}

/// One collection-scoped grant.
#[derive(Clone, Copy, Debug, PartialEq, Eq, Structural)]
pub struct CollectionApprovalEntry {
    pub owner: Identity,
    pub spender: Identity,
    pub info: ApprovalInfo,
}

/// The entry carries the given token-scoped key.
pub open spec fn ta_matches(e: TokenApprovalEntry, token_id: u64, spender: Identity) -> bool {
    e.token_id == token_id && e.spender == spender
}

/// The entry carries the given collection-scoped key.
pub open spec fn ca_matches(e: CollectionApprovalEntry, owner: Identity, spender: Identity) -> bool {
    e.owner == owner && e.spender == spender
}

/// No two token-scoped entries carry the same key.
pub open spec fn ta_distinct(s: Seq<TokenApprovalEntry>) -> bool {
    forall|j: int, k: int|
        0 <= j < k < s.len() ==> !((#[trigger] s[j]).token_id == (#[trigger] s[k]).token_id
            && s[j].spender == s[k].spender)
}

/// No two collection-scoped entries carry the same key.
pub open spec fn ca_distinct(s: Seq<CollectionApprovalEntry>) -> bool {
    forall|j: int, k: int|
        0 <= j < k < s.len() ==> !((#[trigger] s[j]).owner == (#[trigger] s[k]).owner
            && s[j].spender == s[k].spender)
}

/// The token-scoped grant stored under the key, if any.
pub open spec fn spec_token_approval(
    s: Seq<TokenApprovalEntry>,
    token_id: u64,
    spender: Identity,
) -> Option<ApprovalInfo> {
    if exists|j: int| 0 <= j < s.len() && ta_matches(#[trigger] s[j], token_id, spender) {
        let j = choose|j: int| 0 <= j < s.len() && ta_matches(#[trigger] s[j], token_id, spender);
        Some(s[j].info)
    } else {
        None
    }
}

/// The collection-scoped grant stored under the key, if any.
pub open spec fn spec_collection_approval(
    s: Seq<CollectionApprovalEntry>,
    owner: Identity,
    spender: Identity,
) -> Option<ApprovalInfo> {
    if exists|j: int| 0 <= j < s.len() && ca_matches(#[trigger] s[j], owner, spender) {
        let j = choose|j: int| 0 <= j < s.len() && ca_matches(#[trigger] s[j], owner, spender);
        Some(s[j].info)
    } else {
        None
    }
}

/// With distinct keys, an entry that matches settles the lookup.
pub proof fn lemma_ta_lookup(s: Seq<TokenApprovalEntry>, token_id: u64, spender: Identity, j: int)
    requires
        ta_distinct(s),
        0 <= j < s.len(),
        ta_matches(s[j], token_id, spender),
    ensures
        spec_token_approval(s, token_id, spender) == Some(s[j].info),
{
    let j2 = choose|j2: int| 0 <= j2 < s.len() && ta_matches(#[trigger] s[j2], token_id, spender);
    if j2 != j {
        assert(false);
    }
}

/// With distinct keys, an entry that matches settles the lookup.
pub proof fn lemma_ca_lookup(
    s: Seq<CollectionApprovalEntry>,
    owner: Identity,
    spender: Identity,
    j: int,
)
    requires
        ca_distinct(s),
        0 <= j < s.len(),
        ca_matches(s[j], owner, spender),
    ensures
        spec_collection_approval(s, owner, spender) == Some(s[j].info),
{
    let j2 = choose|j2: int| 0 <= j2 < s.len() && ca_matches(#[trigger] s[j2], owner, spender);
    if j2 != j {
        assert(false);
    }
}

/// The grant has not expired at `now`: no expiry, or an expiry moment that
/// has not yet passed — the grant still authorizes at the expiry moment
/// itself.
pub open spec fn spec_valid_at(info: ApprovalInfo, now: u64) -> bool {
    match info.expires_at {
        None => true,
        Some(t) => t >= now,
    }
}

/// The approval engine's state: both grant stores.
#[derive(Debug)]
pub struct Approvals {
    pub token_approvals: Vec<TokenApprovalEntry>,
    pub collection_approvals: Vec<CollectionApprovalEntry>,
}

impl Approvals {
    /// The engine invariant: each key is stored at most once.
    pub open spec fn wf(self) -> bool {
        ta_distinct(self.token_approvals@) && ca_distinct(self.collection_approvals@)
    }

    /// The token-scoped grant for (token, spender), if any.
    pub open spec fn spec_token(self, token_id: u64, spender: Identity) -> Option<ApprovalInfo> {
        spec_token_approval(self.token_approvals@, token_id, spender)
    }

    /// The collection-scoped grant for (owner, spender), if any.
    pub open spec fn spec_collection(self, owner: Identity, spender: Identity) -> Option<
        ApprovalInfo,
    > {
        spec_collection_approval(self.collection_approvals@, owner, spender)
    }

    /// The spender may move the token away from `owner` at `now`: a live
    /// token-scoped grant for (token, spender), or a live collection-scoped
    /// grant for (owner, spender).
    pub open spec fn spec_is_approved(
        self,
        spender: Identity,
        owner: Identity,
        token_id: u64,
        now: u64,
    ) -> bool {
        ||| (self.spec_token(token_id, spender) matches Some(i) && spec_valid_at(i, now))
        ||| (self.spec_collection(owner, spender) matches Some(i) && spec_valid_at(i, now))
    }

    /// An empty engine.
    pub fn new() -> (r: Approvals)
        ensures
            r.wf(),
            r.token_approvals@.len() == 0,
            r.collection_approvals@.len() == 0,
    {
        Approvals { token_approvals: Vec::new(), collection_approvals: Vec::new() }
    }

    /// The position of the token-scoped entry under the key, if present.
    fn find_token(&self, token_id: u64, spender: Identity) -> (r: Option<usize>)
        ensures
            match r {
                Some(j) => j < self.token_approvals@.len() && ta_matches(
                    self.token_approvals@[j as int],
                    token_id,
                    spender,
                ),
                None => forall|k: int|
                    0 <= k < self.token_approvals@.len() ==> !ta_matches(
                        #[trigger] self.token_approvals@[k],
                        token_id,
                        spender,
                    ),
            },
    {
        let mut i: usize = 0;
        while i < self.token_approvals.len()
            invariant
                0 <= i <= self.token_approvals@.len(),
                forall|k: int|
                    0 <= k < i ==> !ta_matches(
                        #[trigger] self.token_approvals@[k],
                        token_id,
                        spender,
                    ),
            decreases self.token_approvals@.len() - i,
        {
            if self.token_approvals[i].token_id == token_id && self.token_approvals[i].spender.id
                == spender.id {
                assert(ta_matches(self.token_approvals@[i as int], token_id, spender));
                return Some(i);
            }
            i += 1;
        }
        None
    }

    /// The position of the collection-scoped entry under the key, if present.
    fn find_collection(&self, owner: Identity, spender: Identity) -> (r: Option<usize>)
        ensures
            match r {
                Some(j) => j < self.collection_approvals@.len() && ca_matches(
                    self.collection_approvals@[j as int],
                    owner,
                    spender,
                ),
                None => forall|k: int|
                    0 <= k < self.collection_approvals@.len() ==> !ca_matches(
                        #[trigger] self.collection_approvals@[k],
                        owner,
                        spender,
                    ),
            },
    {
        let mut i: usize = 0;
        while i < self.collection_approvals.len()
            invariant
                0 <= i <= self.collection_approvals@.len(),
                forall|k: int|
                    0 <= k < i ==> !ca_matches(
                        #[trigger] self.collection_approvals@[k],
                        owner,
                        spender,
                    ),
            decreases self.collection_approvals@.len() - i,
        {
            if self.collection_approvals[i].owner.id == owner.id
                && self.collection_approvals[i].spender.id == spender.id {
                assert(ca_matches(self.collection_approvals@[i as int], owner, spender));
                return Some(i);
            }
            i += 1;
        }
        None
    }

    /// Stores or overwrites the token-scoped grant under (token, spender).
    pub fn set_token_approval(&mut self, token_id: u64, spender: Identity, info: ApprovalInfo)
        requires
            old(self).wf(),
        ensures
            final (self).wf(),
            final (self).collection_approvals == old(self).collection_approvals,
            forall|t2: u64, s2: Identity|
                #[trigger] final (self).spec_token(t2, s2) == (if t2 == token_id && s2 == spender {
                    Some(info)
                } else {
                    old(self).spec_token(t2, s2)
                }),
    {
        let ghost s0 = self.token_approvals@;
        let entry = TokenApprovalEntry { token_id, spender, info };
        match self.find_token(token_id, spender) {
            Some(j) => {
                self.token_approvals.set(j, entry);
                proof {
                    let s1 = self.token_approvals@;
                    assert(s1 == s0.update(j as int, entry));
                    assert forall|a: int, b: int|
                        0 <= a < b < s1.len() implies !((#[trigger] s1[a]).token_id
                        == (#[trigger] s1[b]).token_id && s1[a].spender == s1[b].spender) by {
                        if a != j && b != j {
                            assert(s1[a] == s0[a] && s1[b] == s0[b]);
                        } else if a == j {
                            assert(s1[b] == s0[b]);
                            if s1[b].token_id == token_id && s1[b].spender == spender {
                                assert(ta_matches(s0[j as int], token_id, spender));
                                assert(false);
                            }
                        } else {
                            assert(s1[a] == s0[a]);
                            if s1[a].token_id == token_id && s1[a].spender == spender {
                                assert(ta_matches(s0[j as int], token_id, spender));
                                assert(false);
                            }
                        }
                    }
                    lemma_set_token_effect(s0, s1, j as int, entry, token_id, spender);
                }
            },
            None => {
                self.token_approvals.push(entry);
                proof {
                    let s1 = self.token_approvals@;
                    assert(s1 == s0.push(entry));
                    assert forall|a: int, b: int|
                        0 <= a < b < s1.len() implies !((#[trigger] s1[a]).token_id
                        == (#[trigger] s1[b]).token_id && s1[a].spender == s1[b].spender) by {
                        if b < s0.len() {
                            assert(s1[a] == s0[a] && s1[b] == s0[b]);
                        } else {
                            assert(s1[b] == entry);
                            assert(s1[a] == s0[a]);
                            assert(!ta_matches(s0[a], token_id, spender));
                        }
                    }
                    lemma_push_token_effect(s0, s1, entry, token_id, spender);
                }
            },
        }
    }

    /// Deletes the token-scoped grant under (token, spender); a no-op when
    /// none is stored.
    pub fn consume_token_approval(&mut self, token_id: u64, spender: Identity)
        requires
            old(self).wf(),
        ensures
            final (self).wf(),
            final (self).collection_approvals == old(self).collection_approvals,
            forall|t2: u64, s2: Identity|
                #[trigger] final (self).spec_token(t2, s2) == (if t2 == token_id && s2 == spender {
                    None::<ApprovalInfo>
                } else {
                    old(self).spec_token(t2, s2)
                }),
    {
        let ghost s0 = self.token_approvals@;
        match self.find_token(token_id, spender) {
            Some(j) => {
                self.token_approvals.remove(j);
                proof {
                    let s1 = self.token_approvals@;
                    assert(s1 == s0.remove(j as int));
                    assert(s1 =~= s0.subrange(0, j as int) + s0.subrange(
                        j + 1,
                        s0.len() as int,
                    ));
                    assert forall|a: int, b: int|
                        0 <= a < b < s1.len() implies !((#[trigger] s1[a]).token_id
                        == (#[trigger] s1[b]).token_id && s1[a].spender == s1[b].spender) by {
                        let a0 = if a < j {
                            a
                        } else {
                            a + 1
                        };
                        let b0 = if b < j {
                            b
                        } else {
                            b + 1
                        };
                        assert(s1[a] == s0[a0] && s1[b] == s0[b0]);
                    }
                    lemma_remove_token_effect(s0, s1, j as int, token_id, spender);
                }
            },
            None => {
                proof {
                    let s1 = self.token_approvals@;
                    assert forall|t2: u64, s2: Identity| #[trigger]
                        spec_token_approval(s1, t2, s2) == (if t2 == token_id && s2 == spender {
                            None::<ApprovalInfo>
                        } else {
                            spec_token_approval(s0, t2, s2)
                        }) by {
                        if t2 == token_id && s2 == spender {
                            if exists|k: int|
                                0 <= k < s1.len() && ta_matches(#[trigger] s1[k], t2, s2) {
                                let k = choose|k: int|
                                    0 <= k < s1.len() && ta_matches(#[trigger] s1[k], t2, s2);
                                assert(false);
                            }
                        }
                    }
                }
            },
        }
    }

    /// Stores or overwrites the collection-scoped grant under (owner,
    /// spender).
    pub fn set_collection_approval(&mut self, owner: Identity, spender: Identity, info: ApprovalInfo)
        requires
            old(self).wf(),
        ensures
            final (self).wf(),
            final (self).token_approvals == old(self).token_approvals,
            forall|o2: Identity, s2: Identity|
                #[trigger] final (self).spec_collection(o2, s2) == (if o2 == owner && s2 == spender {
                    Some(info)
                } else {
                    old(self).spec_collection(o2, s2)
                }),
    {
        let ghost s0 = self.collection_approvals@;
        let entry = CollectionApprovalEntry { owner, spender, info };
        match self.find_collection(owner, spender) {
            Some(j) => {
                self.collection_approvals.set(j, entry);
                proof {
                    let s1 = self.collection_approvals@;
                    assert(s1 == s0.update(j as int, entry));
                    assert forall|a: int, b: int|
                        0 <= a < b < s1.len() implies !((#[trigger] s1[a]).owner == (
                        #[trigger] s1[b]).owner && s1[a].spender == s1[b].spender) by {
                        if a != j && b != j {
                            assert(s1[a] == s0[a] && s1[b] == s0[b]);
                        } else if a == j {
                            assert(s1[b] == s0[b]);
                            if s1[b].owner == owner && s1[b].spender == spender {
                                assert(ca_matches(s0[j as int], owner, spender));
                                assert(false);
                            }
                        } else {
                            assert(s1[a] == s0[a]);
                            if s1[a].owner == owner && s1[a].spender == spender {
                                assert(ca_matches(s0[j as int], owner, spender));
                                assert(false);
                            }
                        }
                    }
                    lemma_set_collection_effect(s0, s1, j as int, entry, owner, spender);
                }
            },
            None => {
                self.collection_approvals.push(entry);
                proof {
                    let s1 = self.collection_approvals@;
                    assert(s1 == s0.push(entry));
                    assert forall|a: int, b: int|
                        0 <= a < b < s1.len() implies !((#[trigger] s1[a]).owner == (
                        #[trigger] s1[b]).owner && s1[a].spender == s1[b].spender) by {
                        if b < s0.len() {
                            assert(s1[a] == s0[a] && s1[b] == s0[b]);
                        } else {
                            assert(s1[b] == entry);
                            assert(s1[a] == s0[a]);
                            assert(!ca_matches(s0[a], owner, spender));
                        }
                    }
                    lemma_push_collection_effect(s0, s1, entry, owner, spender);
                }
            },
        }
    }

    /// May `spender` move this token away from `owner` right now?
    pub fn is_approved(&self, spender: Identity, owner: Identity, token_id: u64, now: u64) -> (r:
        bool)
        requires
            self.wf(),
        ensures
            r == self.spec_is_approved(spender, owner, token_id, now),
    {
        let token_ok = match self.find_token(token_id, spender) {
            Some(j) => {
                proof {
                    lemma_ta_lookup(self.token_approvals@, token_id, spender, j as int);
                }
                let info = self.token_approvals[j].info;
                match info.expires_at {
                    Some(t) => t >= now,
                    None => true,
                }
            },
            None => {
                proof {
                    if exists|k: int|
                        0 <= k < self.token_approvals@.len() && ta_matches(
                            #[trigger] self.token_approvals@[k],
                            token_id,
                            spender,
                        ) {
                        let k = choose|k: int|
                            0 <= k < self.token_approvals@.len() && ta_matches(
                                #[trigger] self.token_approvals@[k],
                                token_id,
                                spender,
                            );
                        assert(false);
                    }
                }
                false
            },
        };
        if token_ok {
            return true;
        }
        match self.find_collection(owner, spender) {
            Some(j) => {
                proof {
                    lemma_ca_lookup(self.collection_approvals@, owner, spender, j as int);
                }
                let info = self.collection_approvals[j].info;
                match info.expires_at {
                    Some(t) => t >= now,
                    None => true,
                }
            },
            None => {
                proof {
                    if exists|k: int|
                        0 <= k < self.collection_approvals@.len() && ca_matches(
                            #[trigger] self.collection_approvals@[k],
                            owner,
                            spender,
                        ) {
                        let k = choose|k: int|
                            0 <= k < self.collection_approvals@.len() && ca_matches(
                                #[trigger] self.collection_approvals@[k],
                                owner,
                                spender,
                            );
                        assert(false);
                    }
                }
                false
            },
        }
    }
}

/// Overwriting the entry at the key's position changes exactly that key's
/// lookup.
proof fn lemma_set_token_effect(
    s0: Seq<TokenApprovalEntry>,
    s1: Seq<TokenApprovalEntry>,
    j: int,
    entry: TokenApprovalEntry,
    token_id: u64,
    spender: Identity,
)
    requires
        ta_distinct(s0),
        ta_distinct(s1),
        0 <= j < s0.len(),
        ta_matches(s0[j], token_id, spender),
        entry == (TokenApprovalEntry { token_id, spender, info: entry.info }),
        s1 == s0.update(j, entry),
    ensures
        forall|t2: u64, s2: Identity|
            #[trigger] spec_token_approval(s1, t2, s2) == (if t2 == token_id && s2 == spender {
                Some(entry.info)
            } else {
                spec_token_approval(s0, t2, s2)
            }),
{
    assert forall|t2: u64, s2: Identity| #[trigger]
        spec_token_approval(s1, t2, s2) == (if t2 == token_id && s2 == spender {
            Some(entry.info)
        } else {
            spec_token_approval(s0, t2, s2)
        }) by {
        if t2 == token_id && s2 == spender {
            assert(ta_matches(s1[j], t2, s2));
            lemma_ta_lookup(s1, t2, s2, j);
        } else {
            if exists|k: int| 0 <= k < s0.len() && ta_matches(#[trigger] s0[k], t2, s2) {
                let k = choose|k: int| 0 <= k < s0.len() && ta_matches(#[trigger] s0[k], t2, s2);
                assert(k != j);
                assert(s1[k] == s0[k]);
                lemma_ta_lookup(s0, t2, s2, k);
                lemma_ta_lookup(s1, t2, s2, k);
            } else {
                if exists|k: int| 0 <= k < s1.len() && ta_matches(#[trigger] s1[k], t2, s2) {
                    let k = choose|k: int|
                        0 <= k < s1.len() && ta_matches(#[trigger] s1[k], t2, s2);
                    assert(k != j);
                    assert(s1[k] == s0[k]);
                    assert(false);
                }
            }
        }
    }
}

/// Appending an absent key changes exactly that key's lookup.
proof fn lemma_push_token_effect(
    s0: Seq<TokenApprovalEntry>,
    s1: Seq<TokenApprovalEntry>,
    entry: TokenApprovalEntry,
    token_id: u64,
    spender: Identity,
)
    requires
        ta_distinct(s0),
        ta_distinct(s1),
        forall|k: int| 0 <= k < s0.len() ==> !ta_matches(#[trigger] s0[k], token_id, spender),
        entry == (TokenApprovalEntry { token_id, spender, info: entry.info }),
        s1 == s0.push(entry),
    ensures
        forall|t2: u64, s2: Identity|
            #[trigger] spec_token_approval(s1, t2, s2) == (if t2 == token_id && s2 == spender {
                Some(entry.info)
            } else {
                spec_token_approval(s0, t2, s2)
            }),
{
    assert forall|t2: u64, s2: Identity| #[trigger]
        spec_token_approval(s1, t2, s2) == (if t2 == token_id && s2 == spender {
            Some(entry.info)
        } else {
            spec_token_approval(s0, t2, s2)
        }) by {
        if t2 == token_id && s2 == spender {
            assert(s1[s0.len() as int] == entry);
            assert(ta_matches(s1[s0.len() as int], t2, s2));
            lemma_ta_lookup(s1, t2, s2, s0.len() as int);
        } else {
            if exists|k: int| 0 <= k < s0.len() && ta_matches(#[trigger] s0[k], t2, s2) {
                let k = choose|k: int| 0 <= k < s0.len() && ta_matches(#[trigger] s0[k], t2, s2);
                assert(s1[k] == s0[k]);
                lemma_ta_lookup(s0, t2, s2, k);
                lemma_ta_lookup(s1, t2, s2, k);
            } else {
                if exists|k: int| 0 <= k < s1.len() && ta_matches(#[trigger] s1[k], t2, s2) {
                    let k = choose|k: int|
                        0 <= k < s1.len() && ta_matches(#[trigger] s1[k], t2, s2);
                    if k < s0.len() {
                        assert(false);
                    } else {
                        assert(s1[k] == entry);
                        assert(false);
                    }
                }
            }
        }
    }
}

/// Deleting the entry at the key's position changes exactly that key's
/// lookup.
proof fn lemma_remove_token_effect(
    s0: Seq<TokenApprovalEntry>,
    s1: Seq<TokenApprovalEntry>,
    j: int,
    token_id: u64,
    spender: Identity,
)
    requires
        ta_distinct(s0),
        ta_distinct(s1),
        0 <= j < s0.len(),
        ta_matches(s0[j], token_id, spender),
        s1 == s0.remove(j),
    ensures
        forall|t2: u64, s2: Identity|
            #[trigger] spec_token_approval(s1, t2, s2) == (if t2 == token_id && s2 == spender {
                None::<ApprovalInfo>
            } else {
                spec_token_approval(s0, t2, s2)
            }),
{
    assert(s1 =~= s0.subrange(0, j) + s0.subrange(j + 1, s0.len() as int));
    assert forall|t2: u64, s2: Identity| #[trigger]
        spec_token_approval(s1, t2, s2) == (if t2 == token_id && s2 == spender {
            None::<ApprovalInfo>
        } else {
            spec_token_approval(s0, t2, s2)
        }) by {
        if t2 == token_id && s2 == spender {
            if exists|k: int| 0 <= k < s1.len() && ta_matches(#[trigger] s1[k], t2, s2) {
                let k = choose|k: int| 0 <= k < s1.len() && ta_matches(#[trigger] s1[k], t2, s2);
                let k0 = if k < j {
                    k
                } else {
                    k + 1
                };
                assert(s1[k] == s0[k0]);
                assert(ta_matches(s0[k0], token_id, spender));
                assert(k0 != j);
                assert(false);
            }
        } else {
            if exists|k: int| 0 <= k < s0.len() && ta_matches(#[trigger] s0[k], t2, s2) {
                let k = choose|k: int| 0 <= k < s0.len() && ta_matches(#[trigger] s0[k], t2, s2);
                assert(k != j);
                let k1 = if k < j {
                    k
                } else {
                    k - 1
                };
                assert(s1[k1] == s0[k]);
                lemma_ta_lookup(s0, t2, s2, k);
                lemma_ta_lookup(s1, t2, s2, k1);
            } else {
                if exists|k: int| 0 <= k < s1.len() && ta_matches(#[trigger] s1[k], t2, s2) {
                    let k = choose|k: int|
                        0 <= k < s1.len() && ta_matches(#[trigger] s1[k], t2, s2);
                    let k0 = if k < j {
                        k
                    } else {
                        k + 1
                    };
                    assert(s1[k] == s0[k0]);
                    assert(false);
                }
            }
        }
    }
}

/// Overwriting the entry at the key's position changes exactly that key's
/// lookup.
proof fn lemma_set_collection_effect(
    s0: Seq<CollectionApprovalEntry>,
    s1: Seq<CollectionApprovalEntry>,
    j: int,
    entry: CollectionApprovalEntry,
    owner: Identity,
    spender: Identity,
)
    requires
        ca_distinct(s0),
        ca_distinct(s1),
        0 <= j < s0.len(),
        ca_matches(s0[j], owner, spender),
        entry == (CollectionApprovalEntry { owner, spender, info: entry.info }),
        s1 == s0.update(j, entry),
    ensures
        forall|o2: Identity, s2: Identity|
            #[trigger] spec_collection_approval(s1, o2, s2) == (if o2 == owner && s2 == spender {
                Some(entry.info)
            } else {
                spec_collection_approval(s0, o2, s2)
            }),
{
    assert forall|o2: Identity, s2: Identity| #[trigger]
        spec_collection_approval(s1, o2, s2) == (if o2 == owner && s2 == spender {
            Some(entry.info)
        } else {
            spec_collection_approval(s0, o2, s2)
        }) by {
        if o2 == owner && s2 == spender {
            assert(ca_matches(s1[j], o2, s2));
            lemma_ca_lookup(s1, o2, s2, j);
        } else {
            if exists|k: int| 0 <= k < s0.len() && ca_matches(#[trigger] s0[k], o2, s2) {
                let k = choose|k: int| 0 <= k < s0.len() && ca_matches(#[trigger] s0[k], o2, s2);
                assert(k != j);
                assert(s1[k] == s0[k]);
                lemma_ca_lookup(s0, o2, s2, k);
                lemma_ca_lookup(s1, o2, s2, k);
            } else {
                if exists|k: int| 0 <= k < s1.len() && ca_matches(#[trigger] s1[k], o2, s2) {
                    let k = choose|k: int|
                        0 <= k < s1.len() && ca_matches(#[trigger] s1[k], o2, s2);
                    assert(k != j);
                    assert(s1[k] == s0[k]);
                    assert(false);
                }
            }
        }
    }
}

/// Appending an absent key changes exactly that key's lookup.
proof fn lemma_push_collection_effect(
    s0: Seq<CollectionApprovalEntry>,
    s1: Seq<CollectionApprovalEntry>,
    entry: CollectionApprovalEntry,
    owner: Identity,
    spender: Identity,
)
    requires
        ca_distinct(s0),
        ca_distinct(s1),
        forall|k: int| 0 <= k < s0.len() ==> !ca_matches(#[trigger] s0[k], owner, spender),
        entry == (CollectionApprovalEntry { owner, spender, info: entry.info }),
        s1 == s0.push(entry),
    ensures
        forall|o2: Identity, s2: Identity|
            #[trigger] spec_collection_approval(s1, o2, s2) == (if o2 == owner && s2 == spender {
                Some(entry.info)
            } else {
                spec_collection_approval(s0, o2, s2)
            }),
{
    assert forall|o2: Identity, s2: Identity| #[trigger]
        spec_collection_approval(s1, o2, s2) == (if o2 == owner && s2 == spender {
            Some(entry.info)
        } else {
            spec_collection_approval(s0, o2, s2)
        }) by {
        if o2 == owner && s2 == spender {
            assert(s1[s0.len() as int] == entry);
            assert(ca_matches(s1[s0.len() as int], o2, s2));
            lemma_ca_lookup(s1, o2, s2, s0.len() as int);
        } else {
            if exists|k: int| 0 <= k < s0.len() && ca_matches(#[trigger] s0[k], o2, s2) {
                let k = choose|k: int| 0 <= k < s0.len() && ca_matches(#[trigger] s0[k], o2, s2);
                assert(s1[k] == s0[k]);
                lemma_ca_lookup(s0, o2, s2, k);
                lemma_ca_lookup(s1, o2, s2, k);
            } else {
                if exists|k: int| 0 <= k < s1.len() && ca_matches(#[trigger] s1[k], o2, s2) {
                    let k = choose|k: int|
                        0 <= k < s1.len() && ca_matches(#[trigger] s1[k], o2, s2);
                    if k < s0.len() {
                        assert(false);
                    } else {
                        assert(s1[k] == entry);
                        assert(false);
                    }
                }
            }
        }
    }
}

/// Approval validity only shrinks as time advances: whoever is approved at a
/// later moment was approved at any earlier one, all else equal.
pub proof fn lemma_is_approved_antitone(
    a: Approvals,
    spender: Identity,
    owner: Identity,
    token_id: u64,
    earlier: u64,
    later: u64,
)
    requires
        earlier <= later,
        a.spec_is_approved(spender, owner, token_id, later),
    ensures
        a.spec_is_approved(spender, owner, token_id, earlier),
{
}

/// A token-scoped grant that expires at `t` authorizes exactly the moments
/// up to and including `t`, when no collection-scoped grant interferes.
pub proof fn lemma_token_approval_expiry(
    a: Approvals,
    spender: Identity,
    owner: Identity,
    token_id: u64,
    expiry: u64,
    now: u64,
)
    requires
        a.spec_token(token_id, spender) matches Some(i) && i.expires_at == Some(expiry),
        a.spec_collection(owner, spender) is None,
    ensures
        a.spec_is_approved(spender, owner, token_id, now) == (now <= expiry),
{
}

} // verus!
