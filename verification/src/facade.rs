//! The access-control facade: an owner identity, a table of manager
//! identities, and the check that privileged operations pass before
//! they are forwarded to the remote ledger.
//!
//! The remote call itself is the host's business. The facade
//! contributes two verified steps around it: authorization before the
//! call, and settlement of the transport outcome after it.

use vstd::prelude::*;
use crate::account::{Account, AccountV, Identity, Subaccount, anonymous_id, subaccount_view};
use crate::errors::Error;
use crate::token::{TransferArg, TransferArgV};

verus! {

/// One entry of the manager table. A flag of `false` means the same as
/// absence from the table.
#[derive(Debug)]
pub struct ManagerEntry {
    pub id: Identity,
    pub flag: bool,
}

/// The mathematical value of a manager entry.
#[verifier::ext_equal]
pub ghost struct ManagerEntryV {
    pub id: Seq<u8>,
    pub flag: bool,
}

impl View for ManagerEntry {
    type V = ManagerEntryV;

    open spec fn view(&self) -> ManagerEntryV {
        ManagerEntryV { id: self.id@, flag: self.flag }
    }
}

/// The facade state: the owner identity and the manager table.
#[derive(Debug)]
pub struct Facade {
    pub owner: Identity,
    pub managers: Vec<ManagerEntry>,
}

/// The mathematical value of a facade.
#[verifier::ext_equal]
pub ghost struct FacadeV {
    pub owner: Seq<u8>,
    pub managers: Seq<ManagerEntryV>,
}

impl View for Facade {
    type V = FacadeV;

    open spec fn view(&self) -> FacadeV {
        FacadeV { owner: self.owner@, managers: self.managers@.map_values(|e: ManagerEntry| e@) }
    }
}

/// One entry per identity: the table never holds an identity twice.
pub open spec fn entries_unique(s: Seq<ManagerEntryV>) -> bool {
    forall|i: int, j: int| 0 <= i < j < s.len() ==> s[i].id != s[j].id
}

/// The first entry for the identity, scanning front to back.
pub open spec fn find_entry(s: Seq<ManagerEntryV>, id: Seq<u8>) -> Option<ManagerEntryV>
    decreases s.len(),
{
    if s.len() == 0 {
        None
    } else if s[0].id == id {
        Some(s[0])
    } else {
        find_entry(s.drop_first(), id)
    }
}

/// Whether the identity is a manager: its entry exists and its flag is
/// set. Absence and a cleared flag read the same.
pub open spec fn is_manager_spec(s: Seq<ManagerEntryV>, id: Seq<u8>) -> bool {
    match find_entry(s, id) {
        Some(e) => e.flag,
        None => false,
    }
}

/// In a duplicate-free table, being a manager is having some entry with
/// the identity and a set flag.
pub proof fn lemma_is_manager_index(s: Seq<ManagerEntryV>, x: Seq<u8>)
    requires
        entries_unique(s),
    ensures
        is_manager_spec(s, x) == exists|i: int| 0 <= i < s.len() && s[i].id == x && s[i].flag,
    decreases s.len(),
{
    if s.len() == 0 {
    } else if s[0].id == x {
        if s[0].flag {
            assert(s[0].id == x && s[0].flag);
        } else {
            assert forall|i: int| 0 <= i < s.len() implies !(s[i].id == x && s[i].flag) by {
                if i > 0 {
                    assert(s[i].id != s[0].id);
                }
            }
        }
    } else {
        assert forall|i: int, j: int|
            0 <= i < j < s.drop_first().len() implies s.drop_first()[i].id
            != s.drop_first()[j].id by {
            assert(s.drop_first()[i] == s[i + 1]);
            assert(s.drop_first()[j] == s[j + 1]);
        }
        lemma_is_manager_index(s.drop_first(), x);
        if exists|i: int|
            0 <= i < s.drop_first().len() && s.drop_first()[i].id == x && s.drop_first()[i].flag {
            let i = choose|i: int|
                0 <= i < s.drop_first().len() && s.drop_first()[i].id == x
                    && s.drop_first()[i].flag;
            assert(s[i + 1].id == x && s[i + 1].flag);
        } else {
            assert forall|i: int| 0 <= i < s.len() implies !(s[i].id == x && s[i].flag) by {
                if i > 0 {
                    assert(s.drop_first()[i - 1] == s[i]);
                }
            }
        }
    }
}

/// If index `i` carries the identity and no earlier index does,
/// `find_entry` returns that entry.
pub proof fn lemma_find_entry_at_index(s: Seq<ManagerEntryV>, i: int)
    requires
        0 <= i < s.len(),
        forall|j: int| 0 <= j < i ==> s[j].id != s[i].id,
    ensures
        find_entry(s, s[i].id) == Some(s[i]),
    decreases s.len(),
{
    if i > 0 {
        assert forall|j: int|
            0 <= j < i - 1 implies #[trigger] s.drop_first()[j].id != s.drop_first()[i - 1].id by {
            assert(s.drop_first()[j] == s[j + 1]);
        }
        lemma_find_entry_at_index(s.drop_first(), i - 1);
        assert(s.drop_first()[i - 1] == s[i]);
    }
}

/// A miss means no index carries the identity.
pub proof fn lemma_find_entry_none(s: Seq<ManagerEntryV>, id: Seq<u8>)
    requires
        find_entry(s, id) is None,
    ensures
        forall|i: int| 0 <= i < s.len() ==> s[i].id != id,
    decreases s.len(),
{
    if s.len() > 0 {
        lemma_find_entry_none(s.drop_first(), id);
        assert forall|i: int| 0 <= i < s.len() implies s[i].id != id by {
            if i > 0 {
                assert(s.drop_first()[i - 1] == s[i]);
            }
        }
    }
}

/// The identities whose flag is set, in table order.
pub open spec fn listed_managers(s: Seq<ManagerEntryV>) -> Seq<Seq<u8>>
    decreases s.len(),
{
    if s.len() == 0 {
        Seq::empty()
    } else {
        listed_managers(s.drop_last()) + (if s.last().flag {
            seq![s.last().id]
        } else {
            Seq::empty()
        })
    }
}

/// The mathematical value of a list of identities.
pub open spec fn identities_view(s: Seq<Identity>) -> Seq<Seq<u8>> {
    s.map_values(|x: Identity| x@)
}

impl Facade {
    /// Well-formedness: the manager table holds each identity at most
    /// once.
    pub open spec fn wf(&self) -> bool {
        entries_unique(self@.managers)
    }

    /// A fresh facade: the initializing caller becomes the owner and
    /// its first manager.
    pub fn init(caller: Identity) -> (r: Facade)
        ensures
            r.wf(),
            r@.owner == caller@,
            forall|x: Seq<u8>| is_manager_spec(r@.managers, x) == (x == caller@),
    {
        let mut managers: Vec<ManagerEntry> = Vec::new();
        managers.push(ManagerEntry { id: caller.duplicate(), flag: true });
        let r = Facade { owner: caller, managers };
        proof {
            assert(r@.managers.len() == 1);
            assert forall|x: Seq<u8>| is_manager_spec(r@.managers, x) == (x == caller@) by {
                if r@.managers[0].id != x {
                    assert(find_entry(r@.managers, x) == find_entry(
                        r@.managers.drop_first(),
                        x,
                    ));
                    assert(r@.managers.drop_first().len() == 0);
                }
            }
        }
        r
    }

    /// The index of the identity's entry, if it has one.
    fn lookup_entry(&self, id: &Identity) -> (r: Option<usize>)
        requires
            self.wf(),
        ensures
            match r {
                Some(i) => i < self@.managers.len() && self@.managers[i as int].id == id@
                    && find_entry(self@.managers, id@) == Some(self@.managers[i as int]),
                None => find_entry(self@.managers, id@) is None,
            },
    {
        let n = self.managers.len();
        let mut i: usize = 0;
        while i < n
            invariant
                i <= n,
                n == self@.managers.len(),
                forall|j: int| 0 <= j < i ==> self@.managers[j].id != id@,
            decreases n - i,
        {
            if self.managers[i].id.matches(id) {
                proof {
                    lemma_find_entry_at_index(self@.managers, i as int);
                }
                return Some(i);
            }
            i = i + 1;
        }
        proof {
            if find_entry(self@.managers, id@) is Some {
                lemma_find_entry_found(self@.managers, id@);
            }
        }
        None
    }

    /// Whether the caller is a manager; absence and a cleared flag read
    /// the same.
    pub fn is_caller_manager(&self, caller: &Identity) -> (r: bool)
        requires
            self.wf(),
        ensures
            r == is_manager_spec(self@.managers, caller@),
    {
        match self.lookup_entry(caller) {
            Some(i) => self.managers[i].flag,
            None => false,
        }
    }

    /// Lets a privileged operation pass exactly when the caller is a
    /// manager; anyone else is turned away with `Unauthorized`. Minting,
    /// batch minting, base-URI changes and transfers all pass this
    /// one test before the remote call is made.
    pub fn authorize_privileged(&self, caller: &Identity) -> (r: Result<(), Error>)
        requires
            self.wf(),
        ensures
            match r {
                Ok(u) => is_manager_spec(self@.managers, caller@),
                Err(e) => !is_manager_spec(self@.managers, caller@) && e is Unauthorized,
            },
    {
        if self.is_caller_manager(caller) {
            Ok(())
        } else {
            Err(Error::Unauthorized)
        }
    }

    /// Grants the manager role: only the owner may call, and granting
    /// an identity that is already a manager fails `AlreadyManager`
    /// with the table unchanged.
    pub fn grant_manager(&mut self, caller: &Identity, manager: &Identity) -> (r: Result<
        (),
        Error,
    >)
        requires
            old(self).wf(),
        ensures
            final(self).wf(),
            final(self)@.owner == old(self)@.owner,
            caller@ != old(self)@.owner ==> r == Err::<(), Error>(Error::Unauthorized)
                && final(self)@ == old(self)@,
            caller@ == old(self)@.owner && is_manager_spec(old(self)@.managers, manager@) ==> r
                == Err::<(), Error>(Error::AlreadyManager) && final(self)@ == old(self)@,
            caller@ == old(self)@.owner && !is_manager_spec(old(self)@.managers, manager@) ==> r
                == Ok::<(), Error>(()) && (forall|x: Seq<u8>|
                is_manager_spec(final(self)@.managers, x) == (is_manager_spec(
                    old(self)@.managers,
                    x,
                ) || x == manager@)),
    {
        if !self.owner.matches(caller) {
            return Err(Error::Unauthorized);
        }
        let ghost pre = self@.managers;
        match self.lookup_entry(manager) {
            Some(idx) => {
                if self.managers[idx].flag {
                    return Err(Error::AlreadyManager);
                }
                self.managers.set(idx, ManagerEntry { id: manager.duplicate(), flag: true });
                proof {
                    let post = self@.managers;
                    assert(post =~= pre.update(idx as int, ManagerEntryV { id: manager@, flag: true }));
                    lemma_grant_update(pre, idx as int, manager@);
                }
                Ok(())
            },
            None => {
                proof {
                    lemma_find_entry_none(pre, manager@);
                }
                self.managers.push(ManagerEntry { id: manager.duplicate(), flag: true });
                proof {
                    let post = self@.managers;
                    assert(post =~= pre.push(ManagerEntryV { id: manager@, flag: true }));
                    lemma_grant_push(pre, manager@);
                }
                Ok(())
            },
        }
    }

    /// Revokes the manager role: only the owner may call, the owner
    /// itself can never be revoked, and revoking an identity that is
    /// not a manager fails `InvalidManager` with the table unchanged.
    pub fn revoke_manager(&mut self, caller: &Identity, manager: &Identity) -> (r: Result<
        (),
        Error,
    >)
        requires
            old(self).wf(),
        ensures
            final(self).wf(),
            final(self)@.owner == old(self)@.owner,
            caller@ != old(self)@.owner ==> r == Err::<(), Error>(Error::Unauthorized)
                && final(self)@ == old(self)@,
            caller@ == old(self)@.owner && manager@ == old(self)@.owner ==> r == Err::<(), Error>(
                Error::CannotRevokeOwner,
            ) && final(self)@ == old(self)@,
            caller@ == old(self)@.owner && manager@ != old(self)@.owner && !is_manager_spec(
                old(self)@.managers,
                manager@,
            ) ==> r == Err::<(), Error>(Error::InvalidManager) && final(self)@ == old(self)@,
            caller@ == old(self)@.owner && manager@ != old(self)@.owner && is_manager_spec(
                old(self)@.managers,
                manager@,
            ) ==> r == Ok::<(), Error>(()) && (forall|x: Seq<u8>|
                is_manager_spec(final(self)@.managers, x) == (is_manager_spec(
                    old(self)@.managers,
                    x,
                ) && x != manager@)),
    {
        if !self.owner.matches(caller) {
            return Err(Error::Unauthorized);
        }
        if self.owner.matches(manager) {
            return Err(Error::CannotRevokeOwner);
        }
        let ghost pre = self@.managers;
        match self.lookup_entry(manager) {
            Some(idx) => {
                if !self.managers[idx].flag {
                    proof {
                        lemma_is_manager_index(pre, manager@);
                    }
                    return Err(Error::InvalidManager);
                }
                self.managers.set(idx, ManagerEntry { id: manager.duplicate(), flag: false });
                proof {
                    lemma_is_manager_index(pre, manager@);
                    let post = self@.managers;
                    assert(post =~= pre.update(
                        idx as int,
                        ManagerEntryV { id: manager@, flag: false },
                    ));
                    lemma_revoke_update(pre, idx as int, manager@);
                }
                Ok(())
            },
            None => {
                proof {
                    lemma_is_manager_index(pre, manager@);
                    lemma_find_entry_none(pre, manager@);
                }
                Err(Error::InvalidManager)
            },
        }
    }

    /// The managers, in table order: exactly the identities whose flag
    /// is set.
    pub fn list_managers(&self) -> (r: Vec<Identity>)
        ensures
            identities_view(r@) == listed_managers(self@.managers),
    {
        let mut out: Vec<Identity> = Vec::new();
        let n = self.managers.len();
        let mut i: usize = 0;
        while i < n
            invariant
                i <= n,
                n == self@.managers.len(),
                identities_view(out@) == listed_managers(self@.managers.take(i as int)),
            decreases n - i,
        {
            proof {
                assert(self@.managers.take(i + 1 as int).drop_last() =~= self@.managers.take(
                    i as int,
                ));
                assert(self@.managers.take(i + 1 as int).last() == self@.managers[i as int]);
            }
            if self.managers[i].flag {
                out.push(self.managers[i].id.duplicate());
            }
            proof {
                assert(identities_view(out@) =~= listed_managers(
                    self@.managers.take(i + 1 as int),
                ));
            }
            i = i + 1;
        }
        proof {
            assert(self@.managers.take(n as int) =~= self@.managers);
        }
        out
    }
}

impl Default for Facade {
    /// The placeholder state before initialization: the anonymous
    /// principal owns it and nobody is a manager.
    fn default() -> (r: Facade)
        ensures
            r.wf(),
            r@.owner == anonymous_id(),
            r@.managers =~= Seq::<ManagerEntryV>::empty(),
    {
        Facade { owner: Identity::anonymous(), managers: Vec::new() }
    }
}

/// A found entry sits at some index under its identity.
pub proof fn lemma_find_entry_found(s: Seq<ManagerEntryV>, id: Seq<u8>)
    requires
        find_entry(s, id) is Some,
    ensures
        exists|i: int| 0 <= i < s.len() && s[i] == find_entry(s, id)->Some_0 && s[i].id == id,
    decreases s.len(),
{
    if s.len() > 0 && s[0].id != id {
        lemma_find_entry_found(s.drop_first(), id);
        let i = choose|i: int|
            0 <= i < s.drop_first().len() && s.drop_first()[i] == find_entry(
                s.drop_first(),
                id,
            )->Some_0 && s.drop_first()[i].id == id;
        assert(s[i + 1] == s.drop_first()[i]);
    }
}

/// Setting the flag at the identity's index grants exactly that
/// identity.
proof fn lemma_grant_update(pre: Seq<ManagerEntryV>, idx: int, id: Seq<u8>)
    requires
        entries_unique(pre),
        0 <= idx < pre.len(),
        pre[idx].id == id,
    ensures
        entries_unique(pre.update(idx, ManagerEntryV { id, flag: true })),
        forall|x: Seq<u8>|
            is_manager_spec(pre.update(idx, ManagerEntryV { id, flag: true }), x) == (
            is_manager_spec(pre, x) || x == id),
{
    let post = pre.update(idx, ManagerEntryV { id, flag: true });
    assert forall|i: int, j: int| 0 <= i < j < post.len() implies post[i].id != post[j].id by {
        assert(post[i].id == pre[i].id);
        assert(post[j].id == pre[j].id);
    }
    assert forall|x: Seq<u8>|
        is_manager_spec(post, x) == (is_manager_spec(pre, x) || x == id) by {
        lemma_is_manager_index(pre, x);
        lemma_is_manager_index(post, x);
        if x == id {
            assert(post[idx].id == x && post[idx].flag);
        } else {
            if exists|i: int| 0 <= i < pre.len() && pre[i].id == x && pre[i].flag {
                let i = choose|i: int| 0 <= i < pre.len() && pre[i].id == x && pre[i].flag;
                assert(post[i].id == x && post[i].flag);
            }
            if exists|i: int| 0 <= i < post.len() && post[i].id == x && post[i].flag {
                let i = choose|i: int| 0 <= i < post.len() && post[i].id == x && post[i].flag;
                assert(pre[i].id == x && pre[i].flag);
            }
        }
    }
}

/// Appending a flagged entry for an absent identity grants exactly that
/// identity.
proof fn lemma_grant_push(pre: Seq<ManagerEntryV>, id: Seq<u8>)
    requires
        entries_unique(pre),
        forall|i: int| 0 <= i < pre.len() ==> pre[i].id != id,
    ensures
        entries_unique(pre.push(ManagerEntryV { id, flag: true })),
        forall|x: Seq<u8>|
            is_manager_spec(pre.push(ManagerEntryV { id, flag: true }), x) == (is_manager_spec(
                pre,
                x,
            ) || x == id),
{
    let post = pre.push(ManagerEntryV { id, flag: true });
    assert forall|i: int, j: int| 0 <= i < j < post.len() implies post[i].id != post[j].id by {
        assert(post[i] == pre[i]);
        if j < pre.len() {
            assert(post[j] == pre[j]);
        }
    }
    assert forall|x: Seq<u8>|
        is_manager_spec(post, x) == (is_manager_spec(pre, x) || x == id) by {
        lemma_is_manager_index(pre, x);
        lemma_is_manager_index(post, x);
        if x == id {
            assert(post[pre.len() as int].id == x && post[pre.len() as int].flag);
        } else {
            if exists|i: int| 0 <= i < pre.len() && pre[i].id == x && pre[i].flag {
                let i = choose|i: int| 0 <= i < pre.len() && pre[i].id == x && pre[i].flag;
                assert(post[i].id == x && post[i].flag);
            }
            if exists|i: int| 0 <= i < post.len() && post[i].id == x && post[i].flag {
                let i = choose|i: int| 0 <= i < post.len() && post[i].id == x && post[i].flag;
                assert(pre[i].id == x && pre[i].flag);
            }
        }
    }
}

/// Clearing the flag at the identity's index revokes exactly that
/// identity.
proof fn lemma_revoke_update(pre: Seq<ManagerEntryV>, idx: int, id: Seq<u8>)
    requires
        entries_unique(pre),
        0 <= idx < pre.len(),
        pre[idx].id == id,
    ensures
        entries_unique(pre.update(idx, ManagerEntryV { id, flag: false })),
        forall|x: Seq<u8>|
            is_manager_spec(pre.update(idx, ManagerEntryV { id, flag: false }), x) == (
            is_manager_spec(pre, x) && x != id),
{
    let post = pre.update(idx, ManagerEntryV { id, flag: false });
    assert forall|i: int, j: int| 0 <= i < j < post.len() implies post[i].id != post[j].id by {
        assert(post[i].id == pre[i].id);
        assert(post[j].id == pre[j].id);
    }
    assert forall|x: Seq<u8>|
        is_manager_spec(post, x) == (is_manager_spec(pre, x) && x != id) by {
        lemma_is_manager_index(pre, x);
        lemma_is_manager_index(post, x);
        if x == id {
            if exists|i: int| 0 <= i < post.len() && post[i].id == x && post[i].flag {
                let i = choose|i: int| 0 <= i < post.len() && post[i].id == x && post[i].flag;
                if i != idx {
                    assert(pre[i].id == pre[idx].id);
                }
            }
        } else {
            if exists|i: int| 0 <= i < pre.len() && pre[i].id == x && pre[i].flag {
                let i = choose|i: int| 0 <= i < pre.len() && pre[i].id == x && pre[i].flag;
                assert(post[i].id == x && post[i].flag);
            }
            if exists|i: int| 0 <= i < post.len() && post[i].id == x && post[i].flag {
                let i = choose|i: int| 0 <= i < post.len() && post[i].id == x && post[i].flag;
                assert(pre[i].id == x && pre[i].flag);
            }
        }
    }
}

/// Settles the outcome of a remote call to the ledger: the remote
/// result, whichever way it went, passes through; a transport failure
/// surfaces as `RemoteCallFailed` carrying the transport's message.
pub fn settle_remote<T>(outcome: Result<Result<T, Error>, String>) -> (r: Result<T, Error>)
    ensures
        match outcome {
            Ok(inner) => r == inner,
            Err(detail) => match r {
                Err(e) => e matches Error::RemoteCallFailed(d) && d@ == detail@,
                Ok(v) => false,
            },
        },
{
    match outcome {
        Ok(inner) => inner,
        Err(detail) => Err(Error::RemoteCallFailed(detail)),
    }
}

/// Hands out the facade behind the state cell, or `NotInitialized`
/// where no initialization ever ran.
pub fn require_initialized<'a>(state: &'a Option<Facade>) -> (r: Result<&'a Facade, Error>)
    ensures
        match r {
            Ok(f) => (*state) is Some && *f == (*state)->Some_0,
            Err(e) => (*state) is None && e is NotInitialized,
        },
{
    match state {
        Some(f) => Ok(f),
        None => Err(Error::NotInitialized),
    }
}

/// Builds the per-token transfer requests the facade forwards: each
/// listed token goes from the caller's subaccount to the recipient
/// identity's plain account, with no memo and no timestamp.
pub fn transfer_requests(
    token_ids: Vec<u128>,
    to: &Identity,
    from_subaccount: Option<Subaccount>,
) -> (r: Vec<TransferArg>)
    ensures
        r@.len() == token_ids@.len(),
        forall|i: int|
            0 <= i < r@.len() ==> r@[i]@ == (TransferArgV {
                token_id: token_ids@[i],
                from_subaccount: subaccount_view(from_subaccount),
                to: AccountV { owner: to@, subaccount: None },
                memo: None,
                created_at_time: None,
            }),
{
    let mut out: Vec<TransferArg> = Vec::new();
    let n = token_ids.len();
    let mut i: usize = 0;
    while i < n
        invariant
            i <= n,
            n == token_ids@.len(),
            out@.len() == i,
            forall|j: int|
                0 <= j < i ==> out@[j]@ == (TransferArgV {
                    token_id: token_ids@[j],
                    from_subaccount: subaccount_view(from_subaccount),
                    to: AccountV { owner: to@, subaccount: None },
                    memo: None,
                    created_at_time: None,
                }),
        decreases n - i,
    {
        out.push(
            TransferArg {
                token_id: token_ids[i],
                from_subaccount,
                to: Account { owner: to.duplicate(), subaccount: None },
                memo: None,
                created_at_time: None,
            },
        );
        i = i + 1;
    }
    out
}

} // verus!
