//! Identities and accounts: the units of authorization and ownership.
//!
//! An identity is an opaque principal, a short byte string compared only
//! for equality. An account pairs an identity with an optional 32-byte
//! subaccount; two accounts are equal iff both fields match.

use vstd::prelude::*;

verus! {

/// An opaque caller principal. The host hands these out; the library
/// only stores and compares them.
#[derive(Debug)]
pub struct Identity {
    pub bytes: Vec<u8>,
}

impl View for Identity {
    type V = Seq<u8>;

    open spec fn view(&self) -> Seq<u8> {
        self.bytes@
    }
}

/// The byte string of the anonymous principal, the placeholder owner of
/// a facade that has not been initialized yet.
pub open spec fn anonymous_id() -> Seq<u8> {
    seq![4u8]
}

impl Identity {
    /// The anonymous principal.
    pub fn anonymous() -> (r: Identity)
        ensures
            r@ == anonymous_id(),
    {
        let bytes: Vec<u8> = vec![4u8];
        assert(bytes@ =~= anonymous_id());
        Identity { bytes }
    }

    /// An identity over the given bytes.
    pub fn from_bytes(bytes: Vec<u8>) -> (r: Identity)
        ensures
            r@ == bytes@,
    {
        Identity { bytes }
    }

    /// A copy of this identity.
    pub fn duplicate(&self) -> (r: Identity)
        ensures
            r@ == self@,
    {
        Identity { bytes: clone_bytes(&self.bytes) }
    }

    /// Equality of identities: the byte strings match.
    pub fn matches(&self, other: &Identity) -> (r: bool)
        ensures
            r == (self@ == other@),
    {
        bytes_eq(&self.bytes, &other.bytes)
    }
}

/// An optional sub-identifier refining an identity into an account.
pub type Subaccount = [u8; 32];

/// The mathematical value of an optional subaccount.
pub open spec fn subaccount_view(s: Option<Subaccount>) -> Option<Seq<u8>> {
    match s {
        Some(a) => Some(a@),
        None => None,
    }
}

/// The ledger's unit of ownership: an identity plus an optional
/// subaccount. Two accounts are equal iff both fields match.
#[derive(Debug)]
pub struct Account {
    pub owner: Identity,
    pub subaccount: Option<Subaccount>,
}

/// The mathematical value of an account.
pub ghost struct AccountV {
    pub owner: Seq<u8>,
    pub subaccount: Option<Seq<u8>>,
}

impl View for Account {
    type V = AccountV;

    open spec fn view(&self) -> AccountV {
        AccountV { owner: self.owner@, subaccount: subaccount_view(self.subaccount) }
    }
}

impl Account {
    /// An account without a subaccount.
    pub fn from_identity(owner: Identity) -> (r: Account)
        ensures
            r@ == (AccountV { owner: owner@, subaccount: None }),
    {
        Account { owner, subaccount: None }
    }

    /// A copy of this account.
    pub fn duplicate(&self) -> (r: Account)
        ensures
            r@ == self@,
    {
        Account { owner: self.owner.duplicate(), subaccount: self.subaccount }
    }

    /// Equality of accounts: both the identity and the subaccount match.
    pub fn matches(&self, other: &Account) -> (r: bool)
        ensures
            r == (self@ == other@),
    {
        self.owner.matches(&other.owner) && subaccounts_match(&self.subaccount, &other.subaccount)
    }
}

/// Equality of optional subaccounts, by value.
pub fn subaccounts_match(a: &Option<Subaccount>, b: &Option<Subaccount>) -> (r: bool)
    ensures
        r == (subaccount_view(*a) == subaccount_view(*b)),
{
    match (*a, *b) {
        (None, None) => true,
        (Some(x), Some(y)) => {
            let mut i: usize = 0;
            while i < 32
                invariant
                    *a == Some(x),
                    *b == Some(y),
                    i <= 32,
                    forall|j: int| 0 <= j < i ==> x@[j] == y@[j],
                decreases 32 - i,
            {
                if x[i] != y[i] {
                    proof {
                        assert(x@[i as int] != y@[i as int]);
                        let s1 = subaccount_view(*a);
                        let s2 = subaccount_view(*b);
                        if s1 == s2 {
                            assert(s1->Some_0 == s2->Some_0);
                            assert(false);
                        }
                    }
                    return false;
                }
                i = i + 1;
            }
            assert(x@ =~= y@);
            true
        },
        _ => false,
    }
}

/// Equality of byte strings.
pub fn bytes_eq(a: &Vec<u8>, b: &Vec<u8>) -> (r: bool)
    ensures
        r == (a@ == b@),
{
    if a.len() != b.len() {
        assert(a@ != b@);
        return false;
    }
    let n = a.len();
    let mut i: usize = 0;
    while i < n
        invariant
            i <= n,
            n == a@.len() == b@.len(),
            forall|j: int| 0 <= j < i ==> a@[j] == b@[j],
        decreases n - i,
    {
        if a[i] != b[i] {
            assert(a@[i as int] != b@[i as int]);
            assert(a@ != b@);
            return false;
        }
        i = i + 1;
    }
    assert(a@ =~= b@);
    true
}

/// A copy of a byte string.
pub fn clone_bytes(a: &Vec<u8>) -> (r: Vec<u8>)
    ensures
        r@ == a@,
{
    let mut r: Vec<u8> = Vec::new();
    let n = a.len();
    let mut i: usize = 0;
    while i < n
        invariant
            i <= n,
            n == a@.len(),
            r@ == a@.take(i as int),
        decreases n - i,
    {
        r.push(a[i]);
        assert(r@ =~= a@.take(i + 1 as int));
        i = i + 1;
    }
    assert(a@.take(n as int) =~= a@);
    r
}

} // verus!
