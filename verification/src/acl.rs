//! The access-control lists: administrators and the mint whitelist.
//!
//! The rest of the registry consumes membership only as boolean predicates;
//! this module owns the sets behind those predicates. System administrators
//! manage the administrator list itself and can never remove the last of
//! their own kind; administrators of either kind manage the whitelist.

use vstd::prelude::*;

use crate::types::Identity;
use vstd::pervasive::VecAdditionalExecFns;

verus! {

/// What an administrator may do.
#[derive(Clone, Copy, Debug, PartialEq, Eq, Structural)]
pub enum AdminType {
    /// May do everything, including managing administrators.
    System,
    /// May only perform functional updates.
    Functional,
}

/// One administrator entry.
#[derive(Clone, Copy, Debug, PartialEq, Eq, Structural)]
pub struct Admin {
    pub owner: Identity,
    pub admin_type: AdminType,
}

/// No two admin entries name the same identity.
pub open spec fn admins_distinct(s: Seq<Admin>) -> bool {
    forall|j: int, k: int|
        0 <= j < k < s.len() ==> (#[trigger] s[j]).owner != (#[trigger] s[k]).owner
}

/// The admin kind stored for `who`, if any.
pub open spec fn spec_admin_lookup(s: Seq<Admin>, who: Identity) -> Option<AdminType> {
    if exists|j: int| 0 <= j < s.len() && (#[trigger] s[j]).owner == who {
        let j = choose|j: int| 0 <= j < s.len() && (#[trigger] s[j]).owner == who;
        Some(s[j].admin_type)
    } else {
        None
    }
}

/// With distinct owners, an entry that matches settles the lookup.
proof fn lemma_admin_lookup(s: Seq<Admin>, who: Identity, j: int)
    requires
        admins_distinct(s),
        0 <= j < s.len(),
        s[j].owner == who,
    ensures
        spec_admin_lookup(s, who) == Some(s[j].admin_type),
{
    let j2 = choose|j2: int| 0 <= j2 < s.len() && (#[trigger] s[j2]).owner == who;
    if j2 != j {
        assert(false);
    }
}

/// How many entries are system administrators.
pub open spec fn spec_count_system(s: Seq<Admin>) -> int
    decreases s.len(),
{
    if s.len() == 0 {
        0int
    } else {
        spec_count_system(s.drop_last()) + (if s.last().admin_type == AdminType::System {
            1int
        } else {
            0int
        })
    }
}

/// The access-control state: the admin list and the whitelist.
#[derive(Debug)]
pub struct Acl {
    pub admins: Vec<Admin>,
    pub whitelist: Vec<Identity>,
}

impl Acl {
    /// The ACL invariant: each identity appears at most once per list.
    pub open spec fn wf(self) -> bool {
        &&& admins_distinct(self.admins@)
        &&& forall|j: int, k: int|
            0 <= j < k < self.whitelist@.len() ==> #[trigger] self.whitelist@[j]
                != #[trigger] self.whitelist@[k]
    }

    /// The admin kind stored for `who`, if any.
    pub open spec fn spec_admin_type(self, who: Identity) -> Option<AdminType> {
        spec_admin_lookup(self.admins@, who)
    }

    /// `who` is an administrator of either kind.
    pub open spec fn spec_is_admin(self, who: Identity) -> bool {
        self.spec_admin_type(who) is Some
    }

    /// `who` is a system administrator.
    pub open spec fn spec_is_system_admin(self, who: Identity) -> bool {
        self.spec_admin_type(who) == Some(AdminType::System)
    }

    /// `who` is whitelisted.
    pub open spec fn spec_is_whitelisted(self, who: Identity) -> bool {
        self.whitelist@.contains(who)
    }

    /// The state at process start: the installing caller is the first system
    /// administrator and the first whitelist member.
    pub fn init(caller: Identity) -> (r: Acl)
        ensures
            r.wf(),
            forall|w: Identity|
                #[trigger] r.spec_admin_type(w) == (if w == caller {
                    Some(AdminType::System)
                } else {
                    None::<AdminType>
                }),
            forall|w: Identity| #[trigger] r.spec_is_whitelisted(w) <==> w == caller,
    {
        let mut admins: Vec<Admin> = Vec::new();
        admins.push(Admin { owner: caller, admin_type: AdminType::System });
        let mut whitelist: Vec<Identity> = Vec::new();
        whitelist.push(caller);
        let r = Acl { admins, whitelist };
        proof {
            assert forall|w: Identity| #[trigger]
                r.spec_admin_type(w) == (if w == caller {
                    Some(AdminType::System)
                } else {
                    None::<AdminType>
                }) by {
                if w == caller {
                    lemma_admin_lookup(r.admins@, w, 0);
                } else {
                    if exists|j: int| 0 <= j < r.admins@.len() && (#[trigger] r.admins@[j]).owner
                        == w {
                        let j = choose|j: int|
                            0 <= j < r.admins@.len() && (#[trigger] r.admins@[j]).owner == w;
                        assert(false);
                    }
                }
            }
            assert forall|w: Identity| #[trigger] r.spec_is_whitelisted(w) <==> w == caller by {
                if r.whitelist@.contains(w) {
                    let j = choose|j: int|
                        0 <= j < r.whitelist@.len() && r.whitelist@[j] == w;
                }
                if w == caller {
                    assert(r.whitelist@[0] == caller);
                }
            }
        }
        r
    }

    /// The position of `who`'s admin entry, if present.
    fn find_admin(&self, who: Identity) -> (r: Option<usize>)
        ensures
            match r {
                Some(j) => j < self.admins@.len() && self.admins@[j as int].owner == who,
                None => forall|k: int|
                    0 <= k < self.admins@.len() ==> (#[trigger] self.admins@[k]).owner != who,
            },
    {
        let mut i: usize = 0;
        while i < self.admins.len()
            invariant
                0 <= i <= self.admins@.len(),
                forall|k: int| 0 <= k < i ==> (#[trigger] self.admins@[k]).owner != who,
            decreases self.admins@.len() - i,
        {
            if self.admins[i].owner.id == who.id {
                assert(self.admins@[i as int].owner == who);
                return Some(i);
            }
            i += 1;
        }
        None
    }

    /// The position of `who` in the whitelist, if present.
    fn find_whitelisted(&self, who: Identity) -> (r: Option<usize>)
        ensures
            match r {
                Some(j) => j < self.whitelist@.len() && self.whitelist@[j as int] == who,
                None => !self.whitelist@.contains(who),
            },
    {
        let mut i: usize = 0;
        while i < self.whitelist.len()
            invariant
                0 <= i <= self.whitelist@.len(),
                forall|k: int| 0 <= k < i ==> #[trigger] self.whitelist@[k] != who,
            decreases self.whitelist@.len() - i,
        {
            if self.whitelist[i].id == who.id {
                assert(self.whitelist@[i as int] == who);
                return Some(i);
            }
            i += 1;
        }
        proof {
            if self.whitelist@.contains(who) {
                let j = choose|j: int| 0 <= j < self.whitelist@.len() && self.whitelist@[j] == who;
                assert(false);
            }
        }
        None
    }

    /// Is `who` an administrator of either kind?
    pub fn is_admin(&self, who: Identity) -> (r: bool)
        requires
            self.wf(),
        ensures
            r == self.spec_is_admin(who),
    {
        match self.find_admin(who) {
            Some(j) => {
                proof {
                    lemma_admin_lookup(self.admins@, who, j as int);
                }
                true
            },
            None => {
                proof {
                    lemma_admin_absent(self.admins@, who);
                }
                false
            },
        }
    }

    /// Is `who` a system administrator?
    pub fn is_system_admin(&self, who: Identity) -> (r: bool)
        requires
            self.wf(),
        ensures
            r == self.spec_is_system_admin(who),
    {
        match self.find_admin(who) {
            Some(j) => {
                proof {
                    lemma_admin_lookup(self.admins@, who, j as int);
                }
                match self.admins[j].admin_type {
                    AdminType::System => true,
                    AdminType::Functional => false,
                }
            },
            None => {
                proof {
                    lemma_admin_absent(self.admins@, who);
                }
                false
            },
        }
    }

    /// Is `who` an administrator? A second name for the same question, kept
    /// for callers that ask it of functional duties.
    pub fn is_functional_admin(&self, who: Identity) -> (r: bool)
        requires
            self.wf(),
        ensures
            r == self.spec_is_admin(who),
    {
        self.is_admin(who)
    }

    /// Does `who` hold exactly the given admin kind?
    pub fn is_admin_type(&self, who: Identity, required_type: AdminType) -> (r: bool)
        requires
            self.wf(),
        ensures
            r == (self.spec_admin_type(who) == Some(required_type)),
    {
        match self.find_admin(who) {
            Some(j) => {
                proof {
                    lemma_admin_lookup(self.admins@, who, j as int);
                }
                let stored = self.admins[j].admin_type;
                match (stored, required_type) {
                    (AdminType::System, AdminType::System) => true,
                    (AdminType::Functional, AdminType::Functional) => true,
                    _ => false,
                }
            },
            None => {
                proof {
                    lemma_admin_absent(self.admins@, who);
                }
                false
            },
        }
    }

    /// Is `who` on the whitelist?
    pub fn is_whitelisted(&self, who: Identity) -> (r: bool)
        ensures
            r == self.spec_is_whitelisted(who),
    {
        match self.find_whitelisted(who) {
            Some(j) => {
                proof {
                    assert(self.whitelist@.contains(who));
                }
                true
            },
            None => false,
        }
    }

    /// All administrator entries.
    pub fn get_admins(&self) -> (r: Vec<Admin>)
        ensures
            r@ == self.admins@,
    {
        let mut r: Vec<Admin> = Vec::new();
        let mut i: usize = 0;
        while i < self.admins.len()
            invariant
                0 <= i <= self.admins@.len(),
                r@ == self.admins@.take(i as int),
            decreases self.admins@.len() - i,
        {
            r.push(self.admins[i]);
            assert(r@ =~= self.admins@.take(i + 1));
            i += 1;
        }
        assert(r@ =~= self.admins@);
        r
    }

    /// How many system administrators there are.
    pub fn count_system_admins(&self) -> (r: usize)
        ensures
            r == spec_count_system(self.admins@),
    {
        let mut count: usize = 0;
        let mut i: usize = 0;
        proof {
            lemma_count_system_bound(self.admins@.take(0));
        }
        while i < self.admins.len()
            invariant
                0 <= i <= self.admins@.len(),
                count == spec_count_system(self.admins@.take(i as int)),
                count <= i,
            decreases self.admins@.len() - i,
        {
            assert(self.admins@.take(i + 1).drop_last() =~= self.admins@.take(i as int));
            assert(self.admins@.take(i + 1).last() == self.admins@[i as int]);
            match self.admins[i].admin_type {
                AdminType::System => {
                    count += 1;
                },
                AdminType::Functional => {},
            }
            i += 1;
        }
        assert(self.admins@.take(self.admins@.len() as int) =~= self.admins@);
        count
    }

    /// Makes the caller a system administrator if it is not an administrator
    /// already; a self-service backdoor meant for test deployments, and it
    /// always succeeds.
    pub fn make_me_admin(&mut self, caller: Identity) -> (r: Result<(), String>)
        requires
            old(self).wf(),
        ensures
            final (self).wf(),
            r is Ok,
            final (self).whitelist == old(self).whitelist,
            forall|w: Identity|
                #[trigger] final (self).spec_admin_type(w) == (if w == caller && old(
                    self,
                ).spec_admin_type(w) is None {
                    Some(AdminType::System)
                } else {
                    old(self).spec_admin_type(w)
                }),
    {
        if self.is_admin(caller) {
            return Ok(());
        }
        let ghost s0 = self.admins@;
        proof {
            lemma_admin_absent_all(s0, caller);
        }
        self.admins.push(Admin { owner: caller, admin_type: AdminType::System });
        proof {
            lemma_admin_push_effect(s0, self.admins@, caller, AdminType::System);
        }
        Ok(())
    }

    /// Stores or overwrites an admin entry and whitelists the user; only
    /// system administrators may do this.
    pub fn add_admin(&mut self, caller: Identity, user: Identity, admin_type: AdminType) -> (r:
        Result<(), String>)
        requires
            old(self).wf(),
        ensures
            final (self).wf(),
            !old(self).spec_is_system_admin(caller) ==> {
                &&& r matches Err(m) && m@
                    == "Unauthorized: Only system admins can add new admins"@
                &&& *final (self) == *old(self)
            },
            old(self).spec_is_system_admin(caller) ==> {
                &&& r is Ok
                &&& forall|w: Identity|
                    #[trigger] final (self).spec_admin_type(w) == (if w == user {
                        Some(admin_type)
                    } else {
                        old(self).spec_admin_type(w)
                    })
                &&& forall|w: Identity|
                    #[trigger] final (self).spec_is_whitelisted(w) <==> (old(
                        self,
                    ).spec_is_whitelisted(w) || w == user)
            },
    {
        if !self.is_system_admin(caller) {
            return Err("Unauthorized: Only system admins can add new admins".to_owned());
        }
        let ghost s0 = self.admins@;
        match self.find_admin(user) {
            Some(j) => {
                self.admins.set(j, Admin { owner: user, admin_type });
                proof {
                    lemma_admin_set_effect(s0, self.admins@, j as int, user, admin_type);
                }
            },
            None => {
                proof {
                    lemma_admin_absent_all(s0, user);
                }
                self.admins.push(Admin { owner: user, admin_type });
                proof {
                    lemma_admin_push_effect(s0, self.admins@, user, admin_type);
                }
            },
        }
        let ghost w0 = self.whitelist@;
        match self.find_whitelisted(user) {
            Some(_) => {
                proof {
                    assert forall|w: Identity| #[trigger]
                        self.spec_is_whitelisted(w) <==> (w0.contains(w) || w == user) by {}
                }
            },
            None => {
                self.whitelist.push(user);
                proof {
                    lemma_whitelist_push_effect(w0, self.whitelist@, user);
                }
            },
        }
        Ok(())
    }

    /// Deletes an admin entry; only system administrators may do this, and
    /// the last system administrator cannot remove itself.
    pub fn remove_admin(&mut self, caller: Identity, user: Identity) -> (r: Result<(), String>)
        requires
            old(self).wf(),
        ensures
            final (self).wf(),
            final (self).whitelist == old(self).whitelist,
            !old(self).spec_is_system_admin(caller) ==> {
                &&& r matches Err(m) && m@
                    == "Unauthorized: Only system admins can remove admins"@
                &&& *final (self) == *old(self)
            },
            old(self).spec_is_system_admin(caller) && user == caller && spec_count_system(
                old(self).admins@,
            ) <= 1 ==> {
                &&& r matches Err(m) && m@ == "Cannot remove the last system admin"@
                &&& *final (self) == *old(self)
            },
            old(self).spec_is_system_admin(caller) && !(user == caller && spec_count_system(
                old(self).admins@,
            ) <= 1) ==> {
                &&& r is Ok
                &&& forall|w: Identity|
                    #[trigger] final (self).spec_admin_type(w) == (if w == user {
                        None::<AdminType>
                    } else {
                        old(self).spec_admin_type(w)
                    })
            },
    {
        if !self.is_system_admin(caller) {
            return Err("Unauthorized: Only system admins can remove admins".to_owned());
        }
        if user.id == caller.id && self.count_system_admins() <= 1 {
            assert(user == caller);
            return Err("Cannot remove the last system admin".to_owned());
        }
        assert(!(user == caller && spec_count_system(self.admins@) <= 1));
        let ghost s0 = self.admins@;
        match self.find_admin(user) {
            Some(j) => {
                self.admins.remove(j);
                proof {
                    lemma_admin_remove_effect(s0, self.admins@, j as int, user);
                }
            },
            None => {
                proof {
                    lemma_admin_absent_all(s0, user);
                    assert forall|w: Identity| #[trigger]
                        self.spec_admin_type(w) == (if w == user {
                            None::<AdminType>
                        } else {
                            old(self).spec_admin_type(w)
                        }) by {
                        if w == user {
                            if exists|k: int|
                                0 <= k < s0.len() && (#[trigger] s0[k]).owner == w {
                                let k = choose|k: int|
                                    0 <= k < s0.len() && (#[trigger] s0[k]).owner == w;
                                assert(false);
                            }
                        }
                    }
                }
            },
        }
        Ok(())
    }

    /// Whitelists a user; administrators of either kind may do this.
    pub fn add_to_whitelist(&mut self, caller: Identity, user: Identity) -> (r: Result<(), String>)
        requires
            old(self).wf(),
        ensures
            final (self).wf(),
            final (self).admins == old(self).admins,
            !old(self).spec_is_admin(caller) ==> {
                &&& r matches Err(m) && m@
                    == "Unauthorized: Only admins can add users to whitelist"@
                &&& *final (self) == *old(self)
            },
            old(self).spec_is_admin(caller) ==> {
                &&& r is Ok
                &&& forall|w: Identity|
                    #[trigger] final (self).spec_is_whitelisted(w) <==> (old(
                        self,
                    ).spec_is_whitelisted(w) || w == user)
            },
    {
        if !self.is_admin(caller) {
            return Err("Unauthorized: Only admins can add users to whitelist".to_owned());
        }
        let ghost w0 = self.whitelist@;
        match self.find_whitelisted(user) {
            Some(_) => {
                proof {
                    assert forall|w: Identity| #[trigger]
                        self.spec_is_whitelisted(w) <==> (w0.contains(w) || w == user) by {}
                }
            },
            None => {
                self.whitelist.push(user);
                proof {
                    lemma_whitelist_push_effect(w0, self.whitelist@, user);
                }
            },
        }
        Ok(())
    }

    /// Takes a user off the whitelist; administrators of either kind may do
    /// this.
    pub fn remove_from_whitelist(&mut self, caller: Identity, user: Identity) -> (r: Result<
        (),
        String,
    >)
        requires
            old(self).wf(),
        ensures
            final (self).wf(),
            final (self).admins == old(self).admins,
            !old(self).spec_is_admin(caller) ==> {
                &&& r matches Err(m) && m@
                    == "Unauthorized: Only admins can remove users from whitelist"@
                &&& *final (self) == *old(self)
            },
            old(self).spec_is_admin(caller) ==> {
                &&& r is Ok
                &&& forall|w: Identity|
                    #[trigger] final (self).spec_is_whitelisted(w) <==> (old(
                        self,
                    ).spec_is_whitelisted(w) && w != user)
            },
    {
        if !self.is_admin(caller) {
            return Err("Unauthorized: Only admins can remove users from whitelist".to_owned());
        }
        let ghost w0 = self.whitelist@;
        match self.find_whitelisted(user) {
            Some(j) => {
                self.whitelist.remove(j);
                proof {
                    lemma_whitelist_remove_effect(w0, self.whitelist@, j as int, user);
                }
            },
            None => {
                proof {
                    assert forall|w: Identity| #[trigger]
                        self.spec_is_whitelisted(w) <==> (w0.contains(w) && w != user) by {}
                }
            },
        }
        Ok(())
    }
}

/// When no entry names `who`, the lookup is empty.
proof fn lemma_admin_absent(s: Seq<Admin>, who: Identity)
    requires
        forall|k: int| 0 <= k < s.len() ==> (#[trigger] s[k]).owner != who,
    ensures
        spec_admin_lookup(s, who) is None,
{
    if exists|j: int| 0 <= j < s.len() && (#[trigger] s[j]).owner == who {
        let j = choose|j: int| 0 <= j < s.len() && (#[trigger] s[j]).owner == who;
        assert(false);
    }
}

/// An identity with an empty lookup appears in no entry.
proof fn lemma_admin_absent_all(s: Seq<Admin>, who: Identity)
    requires
        spec_admin_lookup(s, who) is None,
    ensures
        forall|k: int| 0 <= k < s.len() ==> (#[trigger] s[k]).owner != who,
{
    assert forall|k: int| 0 <= k < s.len() implies (#[trigger] s[k]).owner != who by {
        if s[k].owner == who {
            assert(exists|j: int| 0 <= j < s.len() && (#[trigger] s[j]).owner == who);
        }
    }
}

/// Appending an absent identity changes exactly that identity's lookup.
proof fn lemma_admin_push_effect(s0: Seq<Admin>, s1: Seq<Admin>, who: Identity, t: AdminType)
    requires
        admins_distinct(s0),
        forall|k: int| 0 <= k < s0.len() ==> (#[trigger] s0[k]).owner != who,
        s1 == s0.push(Admin { owner: who, admin_type: t }),
    ensures
        admins_distinct(s1),
        forall|w: Identity|
            #[trigger] spec_admin_lookup(s1, w) == (if w == who {
                Some(t)
            } else {
                spec_admin_lookup(s0, w)
            }),
{
    assert forall|a: int, b: int|
        0 <= a < b < s1.len() implies (#[trigger] s1[a]).owner != (#[trigger] s1[b]).owner by {
        if b < s0.len() {
            assert(s1[a] == s0[a] && s1[b] == s0[b]);
        } else {
            assert(s1[a] == s0[a]);
        }
    }
    assert forall|w: Identity| #[trigger]
        spec_admin_lookup(s1, w) == (if w == who {
            Some(t)
        } else {
            spec_admin_lookup(s0, w)
        }) by {
        if w == who {
            assert(s1[s0.len() as int].owner == who);
            lemma_admin_lookup(s1, w, s0.len() as int);
        } else {
            if exists|j: int| 0 <= j < s0.len() && (#[trigger] s0[j]).owner == w {
                let j = choose|j: int| 0 <= j < s0.len() && (#[trigger] s0[j]).owner == w;
                assert(s1[j] == s0[j]);
                lemma_admin_lookup(s0, w, j);
                lemma_admin_lookup(s1, w, j);
            } else {
                lemma_admin_absent(s0, w);
                assert forall|k: int| 0 <= k < s1.len() implies (#[trigger] s1[k]).owner != w by {
                    if k < s0.len() {
                        assert(s1[k] == s0[k]);
                    }
                }
                lemma_admin_absent(s1, w);
            }
        }
    }
}

/// Overwriting the entry at an identity's position changes exactly that
/// identity's lookup.
proof fn lemma_admin_set_effect(s0: Seq<Admin>, s1: Seq<Admin>, j: int, who: Identity, t: AdminType)
    requires
        admins_distinct(s0),
        0 <= j < s0.len(),
        s0[j].owner == who,
        s1 == s0.update(j, Admin { owner: who, admin_type: t }),
    ensures
        admins_distinct(s1),
        forall|w: Identity|
            #[trigger] spec_admin_lookup(s1, w) == (if w == who {
                Some(t)
            } else {
                spec_admin_lookup(s0, w)
            }),
{
    assert forall|a: int, b: int|
        0 <= a < b < s1.len() implies (#[trigger] s1[a]).owner != (#[trigger] s1[b]).owner by {
        assert(s1[a].owner == s0[a].owner);
        assert(s1[b].owner == s0[b].owner);
    }
    assert forall|w: Identity| #[trigger]
        spec_admin_lookup(s1, w) == (if w == who {
            Some(t)
        } else {
            spec_admin_lookup(s0, w)
        }) by {
        if w == who {
            lemma_admin_lookup(s1, w, j);
        } else {
            if exists|k: int| 0 <= k < s0.len() && (#[trigger] s0[k]).owner == w {
                let k = choose|k: int| 0 <= k < s0.len() && (#[trigger] s0[k]).owner == w;
                assert(k != j);
                assert(s1[k] == s0[k]);
                lemma_admin_lookup(s0, w, k);
                lemma_admin_lookup(s1, w, k);
            } else {
                lemma_admin_absent(s0, w);
                assert forall|k: int| 0 <= k < s1.len() implies (#[trigger] s1[k]).owner != w by {
                    if k != j {
                        assert(s1[k] == s0[k]);
                    }
                }
                lemma_admin_absent(s1, w);
            }
        }
    }
}

/// Deleting an identity's entry changes exactly that identity's lookup.
proof fn lemma_admin_remove_effect(s0: Seq<Admin>, s1: Seq<Admin>, j: int, who: Identity)
    requires
        admins_distinct(s0),
        0 <= j < s0.len(),
        s0[j].owner == who,
        s1 == s0.remove(j),
    ensures
        admins_distinct(s1),
        forall|w: Identity|
            #[trigger] spec_admin_lookup(s1, w) == (if w == who {
                None::<AdminType>
            } else {
                spec_admin_lookup(s0, w)
            }),
{
    assert(s1 =~= s0.subrange(0, j) + s0.subrange(j + 1, s0.len() as int));
    assert forall|a: int, b: int|
        0 <= a < b < s1.len() implies (#[trigger] s1[a]).owner != (#[trigger] s1[b]).owner by {
        let a0 = if a < j {
            a
        } else {
            a + 1
        };
        let b0 = if b < j {
            b
        } else {
            b + 1
        };
        assert(s1[a] == s0[a0] && s1[b] == s0[b0]);
    }
    assert forall|w: Identity| #[trigger]
        spec_admin_lookup(s1, w) == (if w == who {
            None::<AdminType>
        } else {
            spec_admin_lookup(s0, w)
        }) by {
        if w == who {
            assert forall|k: int| 0 <= k < s1.len() implies (#[trigger] s1[k]).owner != w by {
                let k0 = if k < j {
                    k
                } else {
                    k + 1
                };
                assert(s1[k] == s0[k0]);
                assert(k0 != j ==> s0[k0].owner != s0[j].owner);
            }
            lemma_admin_absent(s1, w);
        } else {
            if exists|k: int| 0 <= k < s0.len() && (#[trigger] s0[k]).owner == w {
                let k = choose|k: int| 0 <= k < s0.len() && (#[trigger] s0[k]).owner == w;
                assert(k != j);
                let k1 = if k < j {
                    k
                } else {
                    k - 1
                };
                assert(s1[k1] == s0[k]);
                lemma_admin_lookup(s0, w, k);
                lemma_admin_lookup(s1, w, k1);
            } else {
                lemma_admin_absent(s0, w);
                assert forall|k: int| 0 <= k < s1.len() implies (#[trigger] s1[k]).owner != w by {
                    let k0 = if k < j {
                        k
                    } else {
                        k + 1
                    };
                    assert(s1[k] == s0[k0]);
                }
                lemma_admin_absent(s1, w);
            }
        }
    }
}

/// Appending an absent identity extends membership by exactly it.
proof fn lemma_whitelist_push_effect(w0: Seq<Identity>, w1: Seq<Identity>, who: Identity)
    requires
        !w0.contains(who),
        w1 == w0.push(who),
    ensures
        forall|w: Identity| #[trigger] w1.contains(w) <==> (w0.contains(w) || w == who),
{
    assert forall|w: Identity| #[trigger] w1.contains(w) <==> (w0.contains(w) || w == who) by {
        if w1.contains(w) {
            let j = choose|j: int| 0 <= j < w1.len() && w1[j] == w;
            if j < w0.len() {
                assert(w0[j] == w);
            }
        }
        if w0.contains(w) {
            let j = choose|j: int| 0 <= j < w0.len() && w0[j] == w;
            assert(w1[j] == w);
        }
        if w == who {
            assert(w1[w0.len() as int] == who);
        }
    }
}

/// Deleting an identity's entry shrinks membership by exactly it.
proof fn lemma_whitelist_remove_effect(w0: Seq<Identity>, w1: Seq<Identity>, j: int, who: Identity)
    requires
        forall|a: int, b: int| 0 <= a < b < w0.len() ==> #[trigger] w0[a] != #[trigger] w0[b],
        0 <= j < w0.len(),
        w0[j] == who,
        w1 == w0.remove(j),
    ensures
        forall|a: int, b: int| 0 <= a < b < w1.len() ==> #[trigger] w1[a] != #[trigger] w1[b],
        forall|w: Identity| #[trigger] w1.contains(w) <==> (w0.contains(w) && w != who),
{
    assert(w1 =~= w0.subrange(0, j) + w0.subrange(j + 1, w0.len() as int));
    assert forall|a: int, b: int|
        0 <= a < b < w1.len() implies #[trigger] w1[a] != #[trigger] w1[b] by {
        let a0 = if a < j {
            a
        } else {
            a + 1
        };
        let b0 = if b < j {
            b
        } else {
            b + 1
        };
        assert(w1[a] == w0[a0] && w1[b] == w0[b0]);
    }
    assert forall|w: Identity| #[trigger] w1.contains(w) <==> (w0.contains(w) && w != who) by {
        if w1.contains(w) {
            let a = choose|a: int| 0 <= a < w1.len() && w1[a] == w;
            let a0 = if a < j {
                a
            } else {
                a + 1
            };
            assert(w1[a] == w0[a0]);
            assert(w0.contains(w));
            assert(a0 != j ==> w0[a0] != w0[j]);
        }
        if w0.contains(w) && w != who {
            let a = choose|a: int| 0 <= a < w0.len() && w0[a] == w;
            assert(a != j);
            let a1 = if a < j {
                a
            } else {
                a - 1
            };
            assert(w1[a1] == w0[a]);
        }
    }
}

/// No list holds more system administrators than entries.
proof fn lemma_count_system_bound(s: Seq<Admin>)
    ensures
        0 <= spec_count_system(s) <= s.len(),
    decreases s.len(),
{
    if s.len() > 0 {
        lemma_count_system_bound(s.drop_last());
    }
}

} // verus!
