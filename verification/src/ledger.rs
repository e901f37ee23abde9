//! The token ledger: the authoritative map from token id to owner,
//! the collection metadata, and the operations that read or mutate them.
//!
//! The token map is kept as a vector ordered by strictly increasing id,
//! which is the well-formedness invariant every operation preserves. Ids
//! come only from the metadata's `next_token_id` counter, bumped exactly
//! once per successful mint and never reused.

use vstd::prelude::*;
use vstd::pervasive::VecAdditionalExecFns;
use crate::account::{Account, AccountV, subaccounts_match};
use crate::errors::Error;
use crate::metadata::{
    CollectionMetadata, MetaV, InitArg, SetBaseUriArgs, account_opt_view, entries_view,
    MetadataEntry, MetadataEntryV, MetadataValue, MetadataValueV,
};
use crate::numerals::{dec_rep, push_decimal};
use crate::token::{
    Token, TokenV, TokenMetadata, TokenMetadataV, TransferArg, TransferArgV, str_opt_view,
    clone_str_opt, token_metadata_of,
};

verus! {

/// The mathematical value of a ledger.
#[verifier::ext_equal]
pub ghost struct LedgerV {
    pub meta: MetaV,
    pub tokens: Seq<TokenV>,
}

/// The ledger state.
#[derive(Debug)]
pub struct Ledger {
    pub metadata: CollectionMetadata,
    pub tokens: Vec<Token>,
}

impl View for Ledger {
    type V = LedgerV;

    open spec fn view(&self) -> LedgerV {
        LedgerV { meta: self.metadata@, tokens: self.tokens@.map_values(|t: Token| t@) }
    }
}

/// Token ids strictly increase along the store: each id is unique and
/// the store is ordered.
pub open spec fn tokens_sorted(s: Seq<TokenV>) -> bool {
    forall|i: int, j: int| 0 <= i < j < s.len() ==> s[i].id < s[j].id
}

/// The first token with the given id, scanning front to back.
pub open spec fn find_token(s: Seq<TokenV>, id: u128) -> Option<TokenV>
    decreases s.len(),
{
    if s.len() == 0 {
        None
    } else if s[0].id == id {
        Some(s[0])
    } else {
        find_token(s.drop_first(), id)
    }
}

/// Whether some token carries the given id.
pub open spec fn has_token(s: Seq<TokenV>, id: u128) -> bool {
    find_token(s, id) is Some
}

/// What `find_token` returns, in terms of the indices of the store: a
/// found token sits at some index under its id, and a miss means no
/// index carries the id.
pub proof fn lemma_find_token_characterization(s: Seq<TokenV>, id: u128)
    ensures
        match find_token(s, id) {
            Some(t) => t.id == id && exists|i: int| 0 <= i < s.len() && s[i] == t,
            None => forall|i: int| 0 <= i < s.len() ==> s[i].id != id,
        },
    decreases s.len(),
{
    if s.len() > 0 && s[0].id != id {
        lemma_find_token_characterization(s.drop_first(), id);
        match find_token(s.drop_first(), id) {
            Some(t) => {
                let i = choose|i: int| 0 <= i < s.drop_first().len() && s.drop_first()[i] == t;
                assert(s[i + 1] == t);
            },
            None => {
                assert forall|i: int| 0 <= i < s.len() implies s[i].id != id by {
                    if i > 0 {
                        assert(s.drop_first()[i - 1] == s[i]);
                    }
                }
            },
        }
    }
}

/// If index `i` carries the id, `find_token` finds it (the store need
/// not be sorted, only free of duplicate ids up to `i`).
pub proof fn lemma_find_token_at_index(s: Seq<TokenV>, i: int)
    requires
        0 <= i < s.len(),
        forall|j: int| 0 <= j < i ==> s[j].id != s[i].id,
    ensures
        find_token(s, s[i].id) == Some(s[i]),
    decreases s.len(),
{
    if i > 0 {
        assert forall|j: int| 0 <= j < i - 1 implies #[trigger] s.drop_first()[j].id != s.drop_first()[i - 1].id by {
            assert(s.drop_first()[j] == s[j + 1]);
        }
        lemma_find_token_at_index(s.drop_first(), i - 1);
        assert(s.drop_first()[i - 1] == s[i]);
    }
}

/// Where a fresh token lands in an ordered store: before the first
/// token with a larger id.
pub open spec fn sorted_insert(s: Seq<TokenV>, t: TokenV) -> Seq<TokenV>
    decreases s.len(),
{
    if s.len() == 0 {
        seq![t]
    } else if t.id < s[0].id {
        seq![t] + s
    } else {
        seq![s[0]] + sorted_insert(s.drop_first(), t)
    }
}

/// `sorted_insert` is insertion at the position its conditions pick out.
pub proof fn lemma_sorted_insert_at(s: Seq<TokenV>, t: TokenV, p: int)
    requires
        0 <= p <= s.len(),
        forall|j: int| 0 <= j < p ==> s[j].id < t.id,
        p < s.len() ==> t.id < s[p].id,
    ensures
        sorted_insert(s, t) =~= s.insert(p, t),
    decreases s.len(),
{
    s.insert_ensures(p, t);
    if s.len() == 0 {
    } else if t.id < s[0].id {
        assert(p == 0);
    } else {
        assert(p >= 1) by {
            if p == 0 {
                assert(t.id < s[0].id);
            }
        }
        assert forall|j: int| 0 <= j < p - 1 implies #[trigger] s.drop_first()[j].id < t.id by {
            assert(s.drop_first()[j] == s[j + 1]);
        }
        assert(p - 1 < s.drop_first().len() ==> t.id < s.drop_first()[p - 1].id);
        lemma_sorted_insert_at(s.drop_first(), t, p - 1);
        s.drop_first().insert_ensures(p - 1, t);
    }
}

/// Inserting at the picked position keeps the store ordered.
pub proof fn lemma_insert_keeps_sorted(s: Seq<TokenV>, t: TokenV, p: int)
    requires
        tokens_sorted(s),
        0 <= p <= s.len(),
        forall|j: int| 0 <= j < p ==> s[j].id < t.id,
        p < s.len() ==> t.id < s[p].id,
    ensures
        tokens_sorted(s.insert(p, t)),
{
    s.insert_ensures(p, t);
    let s2 = s.insert(p, t);
    assert forall|i: int, j: int| 0 <= i < j < s2.len() implies s2[i].id < s2[j].id by {
        if i < p {
            assert(s2[i] == s[i]);
        } else if i > p {
            assert(s2[i] == s[i - 1]);
        }
        if j < p {
            assert(s2[j] == s[j]);
        } else if j > p {
            assert(s2[j] == s[j - 1]);
        }
    }
}

/// The mathematical value of a sequence of accounts.
pub open spec fn accounts_view(s: Seq<Account>) -> Seq<AccountV> {
    s.map_values(|a: Account| a@)
}

/// The mathematical value of a sequence of strings.
pub open spec fn strings_view(s: Seq<String>) -> Seq<Seq<char>> {
    s.map_values(|x: String| x@)
}

/// The mathematical value of a sequence of optional strings.
pub open spec fn opt_strings_view(s: Seq<Option<String>>) -> Seq<Option<Seq<char>>> {
    s.map_values(|x: Option<String>| str_opt_view(x))
}

/// A sequence padded to length `n` by repeating its last element, with
/// `dflt` standing in for the last element of an empty sequence. It is
/// applied only to sequences of at most `n` entries: longer ones are
/// rejected before any padding happens.
pub open spec fn pad_spec<A>(s: Seq<A>, n: nat, dflt: A) -> Seq<A> {
    Seq::new(
        n as nat,
        |i: int|
            if i < s.len() {
                s[i]
            } else if s.len() > 0 {
                s[s.len() - 1]
            } else {
                dflt
            },
    )
}

/// Extends a vector of strings to length `n` as `pad_spec` says, with
/// the empty string as the default pad; a vector of `n` or more entries
/// is left alone.
fn pad_strings(v: &mut Vec<String>, n: usize)
    ensures
        old(v)@.len() >= n ==> final(v)@ == old(v)@,
        old(v)@.len() <= n ==> strings_view(final(v)@) == pad_spec(
            strings_view(old(v)@),
            n as nat,
            Seq::<char>::empty(),
        ),
{
    let ghost orig = strings_view(old(v)@);
    if v.len() >= n {
        proof {
            if orig.len() == n {
                assert(strings_view(v@) =~= pad_spec(orig, n as nat, Seq::<char>::empty()));
            }
        }
        return ;
    }
    let pad: String = if v.len() > 0 {
        v[v.len() - 1].clone()
    } else {
        String::new()
    };
    while v.len() < n
        invariant
            orig.len() <= v@.len() <= n,
            strings_view(v@) == pad_spec(orig, v@.len() as nat, Seq::<char>::empty()),
            orig.len() > 0 ==> pad@ == orig[orig.len() - 1],
            orig.len() == 0 ==> pad@ == Seq::<char>::empty(),
        decreases n - v.len(),
    {
        let ghost vold = v@;
        v.push(pad.clone());
        proof {
            let target = pad_spec(orig, v@.len() as nat, Seq::<char>::empty());
            assert forall|i: int| 0 <= i < v@.len() implies strings_view(v@)[i] == target[i] by {
                assert(v@[i] == vold[i] || i == vold.len());
                assert(target[i] == pad_spec(orig, vold.len() as nat, Seq::<char>::empty())[i]
                    || i == vold.len());
            }
            assert(strings_view(v@) =~= target);
        }
    }
}

/// Extends a vector of optional strings to length `n` as `pad_spec`
/// says, with an absent value as the default pad; a vector of `n` or
/// more entries is left alone.
fn pad_opt_strings(v: &mut Vec<Option<String>>, n: usize)
    ensures
        old(v)@.len() >= n ==> final(v)@ == old(v)@,
        old(v)@.len() <= n ==> opt_strings_view(final(v)@) == pad_spec(
            opt_strings_view(old(v)@),
            n as nat,
            None::<Seq<char>>,
        ),
{
    let ghost orig = opt_strings_view(old(v)@);
    if v.len() >= n {
        proof {
            if orig.len() == n {
                assert(opt_strings_view(v@) =~= pad_spec(orig, n as nat, None::<Seq<char>>));
            }
        }
        return ;
    }
    let pad: Option<String> = if v.len() > 0 {
        clone_str_opt(&v[v.len() - 1])
    } else {
        None
    };
    while v.len() < n
        invariant
            orig.len() <= v@.len() <= n,
            opt_strings_view(v@) == pad_spec(orig, v@.len() as nat, None::<Seq<char>>),
            orig.len() > 0 ==> str_opt_view(pad) == orig[orig.len() - 1],
            orig.len() == 0 ==> str_opt_view(pad) is None,
        decreases n - v.len(),
    {
        let ghost vold = v@;
        v.push(clone_str_opt(&pad));
        proof {
            assert(opt_strings_view(v@)[vold.len() as int] == str_opt_view(pad));
            let target = pad_spec(orig, v@.len() as nat, None::<Seq<char>>);
            assert forall|i: int| 0 <= i < v@.len() implies opt_strings_view(v@)[i] == target[i] by {
                assert(v@[i] == vold[i] || i == vold.len());
                assert(target[i] == pad_spec(orig, vold.len() as nat, None::<Seq<char>>)[i]
                    || i == vold.len());
            }
            assert(opt_strings_view(v@) =~= target);
        }
    }
}

/// The arguments for minting a single token.
#[derive(Debug)]
pub struct MintArgs {
    pub owner: Account,
    pub name: String,
    pub description: Option<String>,
    pub logo: Option<String>,
}

/// What one mint does: if the counter's id is already taken the whole
/// ledger is left unchanged and the mint reports the conflict;
/// otherwise the fresh token joins the store in id order, the counter
/// is bumped — exactly once per successful mint — and the id is
/// returned.
pub open spec fn mint_spec(
    pre: LedgerV,
    owner: AccountV,
    name: Seq<char>,
    description: Option<Seq<char>>,
    logo: Option<Seq<char>>,
) -> (LedgerV, Result<u128, Error>) {
    let id = pre.meta.next_token_id;
    let bumped = MetaV { next_token_id: (id + 1) as u128, ..pre.meta };
    let t = TokenV { id, owner, name, description, logo };
    if has_token(pre.tokens, id) {
        (pre, Err(Error::InsertConflict))
    } else {
        (LedgerV { meta: bumped, tokens: sorted_insert(pre.tokens, t) }, Ok(id))
    }
}

/// The arguments for minting a batch of tokens. `owners` sets the batch
/// length; the other three sequences are padded to it.
#[derive(Debug)]
pub struct MintBatchArgs {
    pub owners: Vec<Account>,
    pub names: Vec<String>,
    pub descriptions: Vec<Option<String>>,
    pub logos: Vec<Option<String>>,
}

/// What a batch of mints does: one mint per owner, in input order; the
/// first failure stops the batch and its error is the result, with every
/// earlier mint left in place — the batch is deliberately not atomic.
pub open spec fn mint_batch_spec(
    pre: LedgerV,
    owners: Seq<AccountV>,
    names: Seq<Seq<char>>,
    descriptions: Seq<Option<Seq<char>>>,
    logos: Seq<Option<Seq<char>>>,
) -> (LedgerV, Result<Seq<u128>, Error>)
    decreases owners.len(),
{
    if owners.len() == 0 {
        (pre, Ok(Seq::empty()))
    } else {
        let stepped = mint_spec(pre, owners[0], names[0], descriptions[0], logos[0]);
        match stepped.1 {
            Err(e) => (stepped.0, Err(e)),
            Ok(id) => {
                let rest = mint_batch_spec(
                    stepped.0,
                    owners.drop_first(),
                    names.drop_first(),
                    descriptions.drop_first(),
                    logos.drop_first(),
                );
                match rest.1 {
                    Err(e2) => (rest.0, Err(e2)),
                    Ok(ids) => (rest.0, Ok(seq![id] + ids)),
                }
            },
        }
    }
}

/// The mathematical value of a sequence of transfer request elements.
pub open spec fn transfer_args_view(s: Seq<TransferArg>) -> Seq<TransferArgV> {
    s.map_values(|a: TransferArg| a@)
}

/// The owner update a successful transfer performs: the token under the
/// given id hands over to `to`; every other token is untouched.
pub open spec fn set_owner(s: Seq<TokenV>, id: u128, to: AccountV) -> Seq<TokenV> {
    s.map_values(
        |t: TokenV|
            if t.id == id {
                TokenV { owner: to, ..t }
            } else {
                t
            },
    )
}

/// What one transfer element does, with its checks in their fixed
/// order: existence, then authorization (the caller identity and the
/// request's source subaccount must match the token's owner account),
/// then no transfer to the current owner.
pub open spec fn transfer_one_spec(pre: Seq<TokenV>, caller: AccountV, arg: TransferArgV) -> (
    Seq<TokenV>,
    Result<u128, Error>,
) {
    match find_token(pre, arg.token_id) {
        None => (pre, Err(Error::NonExistentToken)),
        Some(t) => {
            if t.owner.owner != caller.owner || t.owner.subaccount != arg.from_subaccount {
                (pre, Err(Error::Unauthorized))
            } else if t.owner == arg.to {
                (pre, Err(Error::InvalidTransfer))
            } else {
                (set_owner(pre, arg.token_id, arg.to), Ok(arg.token_id))
            }
        },
    }
}

/// What a transfer request does: elements are processed independently
/// and in order, each against the store the previous elements left, and
/// each contributing its own result.
pub open spec fn transfer_spec(pre: Seq<TokenV>, caller: AccountV, args: Seq<TransferArgV>) -> (
    Seq<TokenV>,
    Seq<Result<u128, Error>>,
)
    decreases args.len(),
{
    if args.len() == 0 {
        (pre, Seq::empty())
    } else {
        let stepped = transfer_one_spec(pre, caller, args[0]);
        let rest = transfer_spec(stepped.0, caller, args.drop_first());
        (rest.0, seq![stepped.1] + rest.1)
    }
}

/// The owner of the token under the given id, if any.
pub open spec fn owner_of_spec(s: Seq<TokenV>, id: u128) -> Option<AccountV> {
    match find_token(s, id) {
        Some(t) => Some(t.owner),
        None => None,
    }
}

/// The metadata of the token under the given id, if any.
pub open spec fn token_metadata_spec(s: Seq<TokenV>, id: u128) -> Option<TokenMetadataV> {
    match find_token(s, id) {
        Some(t) => Some(token_metadata_of(t)),
        None => None,
    }
}

/// The mathematical value of an optional token metadata record.
pub open spec fn token_metadata_opt_view(m: Option<TokenMetadata>) -> Option<TokenMetadataV> {
    match m {
        Some(x) => Some(x@),
        None => None,
    }
}

/// How many tokens of the store the account owns.
pub open spec fn owned_count(s: Seq<TokenV>, a: AccountV) -> nat
    decreases s.len(),
{
    if s.len() == 0 {
        0
    } else {
        owned_count(s.drop_last(), a) + (if s.last().owner == a {
            1nat
        } else {
            0nat
        })
    }
}

/// Whether an id lies beyond the pagination cursor.
pub open spec fn above(prev: Option<u128>, id: u128) -> bool {
    match prev {
        None => true,
        Some(p) => id > p,
    }
}

/// The ids of the store beyond the cursor, in store order.
pub open spec fn ids_above(s: Seq<TokenV>, prev: Option<u128>) -> Seq<u128>
    decreases s.len(),
{
    if s.len() == 0 {
        Seq::empty()
    } else {
        ids_above(s.drop_last(), prev) + (if above(prev, s.last().id) {
            seq![s.last().id]
        } else {
            Seq::empty()
        })
    }
}

/// The ids of the account's tokens beyond the cursor, in store order.
pub open spec fn ids_above_of(s: Seq<TokenV>, owner: AccountV, prev: Option<u128>) -> Seq<u128>
    decreases s.len(),
{
    if s.len() == 0 {
        Seq::empty()
    } else {
        ids_above_of(s.drop_last(), owner, prev) + (
        if s.last().owner == owner && above(prev, s.last().id) {
            seq![s.last().id]
        } else {
            Seq::empty()
        })
    }
}

/// A page: the whole listing, or its first `take` entries.
pub open spec fn page(ids: Seq<u128>, take: Option<u128>) -> Seq<u128> {
    match take {
        None => ids,
        Some(t) => if ids.len() <= t {
            ids
        } else {
            ids.take(t as int)
        },
    }
}

/// The optional text entry of the collection metadata for one key.
pub open spec fn text_entry_opt(key: Seq<char>, v: Option<Seq<char>>) -> Seq<MetadataEntryV> {
    match v {
        Some(s) => seq![MetadataEntryV { key, value: MetadataValueV::Text(s) }],
        None => Seq::empty(),
    }
}

/// The optional numeric entry of the collection metadata for one key.
pub open spec fn nat_entry_opt(key: Seq<char>, v: Option<u128>) -> Seq<MetadataEntryV> {
    match v {
        Some(n) => seq![MetadataEntryV { key, value: MetadataValueV::Nat(n) }],
        None => Seq::empty(),
    }
}

/// The collection metadata listing: one entry per present field, in a
/// fixed order, with the total supply always present.
pub open spec fn collection_metadata_spec(l: LedgerV) -> Seq<MetadataEntryV> {
    text_entry_opt("icrc7:name"@, l.meta.name) + text_entry_opt("icrc7:symbol"@, l.meta.symbol)
        + text_entry_opt("icrc7:logo"@, l.meta.logo) + text_entry_opt(
        "icrc7:description"@,
        l.meta.description,
    ) + seq![
        MetadataEntryV {
            key: "icrc7:total_supply"@,
            value: MetadataValueV::Nat(l.tokens.len() as u128),
        },
    ] + nat_entry_opt("icrc7:supply_cap"@, l.meta.supply_cap) + nat_entry_opt(
        "icrc7:max_query_batch_size"@,
        l.meta.max_query_batch_size,
    ) + nat_entry_opt("icrc7:max_update_batch_size"@, l.meta.max_update_batch_size)
        + nat_entry_opt("icrc7:default_take_value"@, l.meta.default_take_value) + nat_entry_opt(
        "icrc7:max_take_value"@,
        l.meta.max_take_value,
    ) + nat_entry_opt("icrc7:max_memo_size"@, l.meta.max_memo_size) + nat_entry_opt(
        "icrc7:permitted_drift"@,
        l.meta.permitted_drift,
    ) + nat_entry_opt("icrc7:tx_window"@, l.meta.tx_window)
}

/// Appends the text entry for one key, if the field is present.
fn push_text_entry(out: &mut Vec<MetadataEntry>, key: &str, v: &Option<String>)
    ensures
        entries_view(final(out)@) == entries_view(old(out)@) + text_entry_opt(
            key@,
            str_opt_view(*v),
        ),
{
    match v {
        Some(s) => {
            out.push(MetadataEntry { key: key.to_owned(), value: MetadataValue::Text(s.clone()) });
        },
        None => {},
    }
    proof {
        assert(entries_view(out@) =~= entries_view(old(out)@) + text_entry_opt(
            key@,
            str_opt_view(*v),
        ));
    }
}

/// Appends the numeric entry for one key, if the field is present.
fn push_nat_entry(out: &mut Vec<MetadataEntry>, key: &str, v: Option<u128>)
    ensures
        entries_view(final(out)@) == entries_view(old(out)@) + nat_entry_opt(key@, v),
{
    match v {
        Some(n) => {
            out.push(MetadataEntry { key: key.to_owned(), value: MetadataValue::Nat(n) });
        },
        None => {},
    }
    proof {
        assert(entries_view(out@) =~= entries_view(old(out)@) + nat_entry_opt(key@, v));
    }
}

impl Ledger {
    /// Well-formedness: the token store is ordered by strictly
    /// increasing id.
    pub open spec fn wf(&self) -> bool {
        tokens_sorted(self@.tokens)
    }

    /// A fresh ledger: the initialization arguments fill the metadata,
    /// the base URI starts empty, the id counter starts at 1, and no
    /// token exists.
    pub fn init(arg: InitArg) -> (r: Ledger)
        ensures
            r.wf(),
            r@.tokens =~= Seq::<TokenV>::empty(),
            r@.meta == (MetaV {
                name: Some(arg.icrc7_name@),
                symbol: Some(arg.icrc7_symbol@),
                supply_cap: arg.icrc7_supply_cap,
                description: str_opt_view(arg.icrc7_description),
                logo: str_opt_view(arg.icrc7_logo),
                max_query_batch_size: None,
                max_update_batch_size: None,
                default_take_value: None,
                max_take_value: None,
                max_memo_size: None,
                atomic_batch_transfer: None,
                tx_window: None,
                permitted_drift: None,
                base_uri: Seq::<char>::empty(),
                next_token_id: 1u128,
                minting_auth: crate::metadata::account_opt_view(arg.minting_auth),
            }),
    {
        let mut metadata = CollectionMetadata::empty();
        metadata.icrc7_name = Some(arg.icrc7_name);
        metadata.icrc7_symbol = Some(arg.icrc7_symbol);
        metadata.icrc7_supply_cap = arg.icrc7_supply_cap;
        metadata.icrc7_description = arg.icrc7_description;
        metadata.icrc7_logo = arg.icrc7_logo;
        metadata.minting_auth = arg.minting_auth;
        let r = Ledger { metadata, tokens: Vec::new() };
        proof {
            assert(r@.tokens =~= Seq::<TokenV>::empty());
        }
        r
    }

    /// The number of minted tokens.
    pub fn icrc7_total_supply(&self) -> (r: u128)
        ensures
            r == self@.tokens.len(),
    {
        self.tokens.len() as u128
    }

    /// The index of the token with the given id, if any.
    fn lookup(&self, id: u128) -> (r: Option<usize>)
        ensures
            match r {
                Some(i) => i < self@.tokens.len() && self@.tokens[i as int].id == id
                    && find_token(self@.tokens, id) == Some(self@.tokens[i as int]),
                None => find_token(self@.tokens, id) is None,
            },
    {
        let n = self.tokens.len();
        let mut i: usize = 0;
        while i < n
            invariant
                i <= n,
                n == self@.tokens.len(),
                forall|j: int| 0 <= j < i ==> self@.tokens[j].id != id,
            decreases n - i,
        {
            if self.tokens[i].id == id {
                proof {
                    lemma_find_token_at_index(self@.tokens, i as int);
                }
                return Some(i);
            }
            i = i + 1;
        }
        proof {
            lemma_find_token_characterization(self@.tokens, id);
            if find_token(self@.tokens, id) is Some {
                let t = find_token(self@.tokens, id)->Some_0;
                let k = choose|k: int|
                    0 <= k < self@.tokens.len() && self@.tokens[k] == t;
                assert(self@.tokens[k].id != id);
                assert(false);
            }
        }
        None
    }

    /// The index at which a fresh token with the given id belongs:
    /// the first index whose token id is at least `id`.
    fn insert_position(&self, id: u128) -> (p: usize)
        requires
            self.wf(),
        ensures
            p <= self@.tokens.len(),
            forall|j: int| 0 <= j < p ==> self@.tokens[j].id < id,
            p < self@.tokens.len() ==> self@.tokens[p as int].id >= id,
    {
        let n = self.tokens.len();
        let mut i: usize = 0;
        while i < n
            invariant
                i <= n,
                n == self@.tokens.len(),
                forall|j: int| 0 <= j < i ==> self@.tokens[j].id < id,
            decreases n - i,
        {
            if self.tokens[i].id >= id {
                return i;
            }
            i = i + 1;
        }
        n
    }

    /// Allocates the next token id: returns the counter and bumps it.
    /// The counter alone changes.
    pub fn get_next_token_id(&mut self) -> (r: u128)
        requires
            old(self)@.meta.next_token_id < u128::MAX,
        ensures
            r == old(self)@.meta.next_token_id,
            final(self)@.meta == (MetaV {
                next_token_id: (old(self)@.meta.next_token_id + 1) as u128,
                ..old(self)@.meta
            }),
            final(self)@.tokens == old(self)@.tokens,
    {
        let id = self.metadata.next_token_id;
        self.metadata.next_token_id = id + 1;
        id
    }

    /// Mints one token: takes the counter's id, constructs the token,
    /// and inserts it in id order. `InsertConflict` comes only when
    /// that id is already taken — unreachable under monotonic
    /// allocation, and reported as the invariant violation it is — and
    /// then nothing changes: no operation but the batch mint leaves
    /// state behind on failure.
    pub fn mint(&mut self, args: MintArgs) -> (r: Result<u128, Error>)
        requires
            old(self).wf(),
            old(self)@.meta.next_token_id < u128::MAX,
        ensures
            final(self).wf(),
            ({
                let (post, res) = mint_spec(
                    old(self)@,
                    args.owner@,
                    args.name@,
                    str_opt_view(args.description),
                    str_opt_view(args.logo),
                );
                final(self)@ == post && r == res
            }),
    {
        let ghost pre = self@;
        let MintArgs { owner, name, description, logo } = args;
        let ghost t_v = TokenV {
            id: pre.meta.next_token_id,
            owner: owner@,
            name: name@,
            description: str_opt_view(description),
            logo: str_opt_view(logo),
        };
        let new_id = self.metadata.next_token_id;
        if self.lookup(new_id).is_some() {
            return Err(Error::InsertConflict);
        }
        self.metadata.next_token_id = new_id + 1;
        proof {
            lemma_find_token_characterization(pre.tokens, new_id);
        }
        let token = Token::new(new_id, owner, name, description, logo);
        let p = self.insert_position(new_id);
        proof {
            lemma_sorted_insert_at(pre.tokens, t_v, p as int);
            lemma_insert_keeps_sorted(pre.tokens, t_v, p as int);
            pre.tokens.insert_ensures(p as int, t_v);
        }
        let ghost vpre = self.tokens@;
        self.tokens.insert(p, token);
        proof {
            vpre.insert_ensures(p as int, token);
            assert(self@.tokens =~= pre.tokens.insert(p as int, t_v));
            assert(self@ =~= mint_spec(
                pre,
                t_v.owner,
                t_v.name,
                t_v.description,
                t_v.logo,
            ).0);
        }
        Ok(new_id)
    }

    /// Mints a batch: pads the names, descriptions and logos that are
    /// shorter than the owners to that length by repeating their last
    /// element, then mints one token per owner in input order. A
    /// sequence longer than the owners cannot be padded into agreement,
    /// so the batch fails `LengthMismatch` with the ledger untouched.
    /// Once minting starts, the first failing mint aborts the batch
    /// with its error; tokens minted before it stay in the store.
    #[verifier::loop_isolation(false)]
    pub fn mint_batch(&mut self, args: MintBatchArgs) -> (r: Result<Vec<u128>, Error>)
        requires
            old(self).wf(),
            old(self)@.meta.next_token_id + args.owners@.len() <= u128::MAX,
        ensures
            final(self).wf(),
            ({
                let n = args.owners@.len();
                if args.names@.len() > n || args.descriptions@.len() > n || args.logos@.len()
                    > n {
                    final(self)@ == old(self)@ && r == Err::<Vec<u128>, Error>(
                        Error::LengthMismatch,
                    )
                } else {
                    let (post, res) = mint_batch_spec(
                        old(self)@,
                        accounts_view(args.owners@),
                        pad_spec(strings_view(args.names@), n, Seq::<char>::empty()),
                        pad_spec(opt_strings_view(args.descriptions@), n, None::<Seq<char>>),
                        pad_spec(opt_strings_view(args.logos@), n, None::<Seq<char>>),
                    );
                    final(self)@ == post && (match r {
                        Ok(ids) => res == Ok::<Seq<u128>, Error>(ids@),
                        Err(e) => res == Err::<Seq<u128>, Error>(e),
                    })
                }
            }),
    {
        let ghost l0 = self@;
        let ghost o_in = accounts_view(args.owners@);
        let ghost nm_in = strings_view(args.names@);
        let ghost ds_in = opt_strings_view(args.descriptions@);
        let ghost lg_in = opt_strings_view(args.logos@);
        let ghost n_in = args.owners@.len();
        let MintBatchArgs { owners, mut names, mut descriptions, mut logos } = args;
        let ghost names0 = strings_view(names@);
        let ghost descriptions0 = opt_strings_view(descriptions@);
        let ghost logos0 = opt_strings_view(logos@);
        proof {
            assert(names0 == nm_in);
            assert(descriptions0 == ds_in);
            assert(logos0 == lg_in);
        }
        let owners_len = owners.len();
        pad_strings(&mut names, owners_len);
        pad_opt_strings(&mut descriptions, owners_len);
        pad_opt_strings(&mut logos, owners_len);
        if owners.len() != names.len() || owners.len() != descriptions.len() || owners.len()
            != logos.len() {
            proof {
                assert(accounts_view(owners@) == o_in);
                if nm_in.len() <= n_in && ds_in.len() <= n_in && lg_in.len() <= n_in {
                    assert(strings_view(names@).len() == n_in);
                    assert(opt_strings_view(descriptions@).len() == n_in);
                    assert(opt_strings_view(logos@).len() == n_in);
                    assert(false);
                }
            }
            return Err(Error::LengthMismatch);
        }
        let ghost o = accounts_view(owners@);
        let ghost nm = strings_view(names@);
        let ghost ds = opt_strings_view(descriptions@);
        let ghost lg = opt_strings_view(logos@);
        proof {
            assert(o == o_in);
            assert(owners_len == n_in);
            assert(nm_in.len() <= n_in) by {
                if nm_in.len() > n_in {
                    assert(names@.len() == nm_in.len());
                }
            }
            assert(ds_in.len() <= n_in) by {
                if ds_in.len() > n_in {
                    assert(descriptions@.len() == ds_in.len());
                }
            }
            assert(lg_in.len() <= n_in) by {
                if lg_in.len() > n_in {
                    assert(logos@.len() == lg_in.len());
                }
            }
            assert(nm == pad_spec(nm_in, n_in as nat, Seq::<char>::empty()));
            assert(ds == pad_spec(ds_in, n_in as nat, None::<Seq<char>>));
            assert(lg == pad_spec(lg_in, n_in as nat, None::<Seq<char>>));
            assert(o.skip(0) =~= o);
            assert(nm.skip(0) =~= nm);
            assert(ds.skip(0) =~= ds);
            assert(lg.skip(0) =~= lg);
            let rest = mint_batch_spec(l0, o, nm, ds, lg);
            if rest.1 is Ok {
                assert(Seq::<u128>::empty() + rest.1->Ok_0 =~= rest.1->Ok_0);
            }
        }
        let mut ids: Vec<u128> = Vec::new();
        let mut i: usize = 0;
        while i < owners_len
            invariant
                self.wf(),
                l0 == old(self)@,
                o == o_in && owners_len == n_in,
                nm == pad_spec(nm_in, n_in as nat, Seq::<char>::empty()),
                ds == pad_spec(ds_in, n_in as nat, None::<Seq<char>>),
                lg == pad_spec(lg_in, n_in as nat, None::<Seq<char>>),
                i <= owners_len,
                owners_len == o.len() && owners_len == nm.len() && owners_len == ds.len()
                    && owners_len == lg.len(),
                owners@.len() == owners_len && names@.len() == owners_len && descriptions@.len()
                    == owners_len && logos@.len() == owners_len,
                o == accounts_view(owners@) && nm == strings_view(names@) && ds
                    == opt_strings_view(descriptions@) && lg == opt_strings_view(logos@),
                ids@.len() == i,
                self@.meta.next_token_id == l0.meta.next_token_id + i,
                l0.meta.next_token_id + owners_len <= u128::MAX,
                ({
                    let full = mint_batch_spec(l0, o, nm, ds, lg);
                    let rest = mint_batch_spec(
                        self@,
                        o.skip(i as int),
                        nm.skip(i as int),
                        ds.skip(i as int),
                        lg.skip(i as int),
                    );
                    full.0 == rest.0 && full.1 == (match rest.1 {
                        Ok(more) => Ok::<Seq<u128>, Error>(ids@ + more),
                        Err(e) => Err::<Seq<u128>, Error>(e),
                    })
                }),
            decreases owners_len - i,
        {
            let margs = MintArgs {
                owner: owners[i].duplicate(),
                name: names[i].clone(),
                description: clone_str_opt(&descriptions[i]),
                logo: clone_str_opt(&logos[i]),
            };
            let ghost cur = self@;
            let ghost prev_ids = ids@;
            proof {
                assert(o.skip(i as int)[0] == o[i as int]);
                assert(nm.skip(i as int)[0] == nm[i as int]);
                assert(ds.skip(i as int)[0] == ds[i as int]);
                assert(lg.skip(i as int)[0] == lg[i as int]);
                assert(o.skip(i as int).drop_first() =~= o.skip(i as int + 1));
                assert(nm.skip(i as int).drop_first() =~= nm.skip(i as int + 1));
                assert(ds.skip(i as int).drop_first() =~= ds.skip(i as int + 1));
                assert(lg.skip(i as int).drop_first() =~= lg.skip(i as int + 1));
            }
            match self.mint(margs) {
                Ok(id) => {
                    ids.push(id);
                    proof {
                        let more_full = mint_batch_spec(
                            self@,
                            o.skip(i as int + 1),
                            nm.skip(i as int + 1),
                            ds.skip(i as int + 1),
                            lg.skip(i as int + 1),
                        );
                        if more_full.1 is Ok {
                            let more = more_full.1->Ok_0;
                            assert(prev_ids + (seq![id] + more) =~= ids@ + more);
                        }
                    }
                },
                Err(e) => {
                    proof {
                        let stepped = mint_spec(
                            cur,
                            o.skip(i as int)[0],
                            nm.skip(i as int)[0],
                            ds.skip(i as int)[0],
                            lg.skip(i as int)[0],
                        );
                        assert(stepped.0 == self@);
                        assert(stepped.1 == Err::<u128, Error>(e));
                    }
                    return Err(e);
                },
            }
            i = i + 1;
        }
        proof {
            assert(o.skip(owners_len as int) =~= Seq::<AccountV>::empty());
            assert(nm.skip(owners_len as int) =~= Seq::<Seq<char>>::empty());
            assert(ds.skip(owners_len as int) =~= Seq::<Option<Seq<char>>>::empty());
            assert(lg.skip(owners_len as int) =~= Seq::<Option<Seq<char>>>::empty());
            assert(ids@ + Seq::<u128>::empty() =~= ids@);
        }
        Ok(ids)
    }

    /// Carries out one transfer element against the current store.
    fn transfer_one(&mut self, caller: &Account, arg: &TransferArg) -> (res: Result<u128, Error>)
        requires
            old(self).wf(),
        ensures
            final(self).wf(),
            final(self)@.meta == old(self)@.meta,
            ({
                let (post, res2) = transfer_one_spec(old(self)@.tokens, caller@, arg@);
                final(self)@.tokens == post && res == res2
            }),
    {
        let idx = match self.lookup(arg.token_id) {
            None => {
                return Err(Error::NonExistentToken);
            },
            Some(idx) => idx,
        };
        let ghost t0 = self@.tokens;
        let ghost tv = self@.tokens[idx as int];
        let token = &self.tokens[idx];
        let authorized = token.owner.owner.matches(&caller.owner) && subaccounts_match(
            &token.owner.subaccount,
            &arg.from_subaccount,
        );
        if !authorized {
            return Err(Error::Unauthorized);
        }
        if token.owner.matches(&arg.to) {
            return Err(Error::InvalidTransfer);
        }
        let mut moved = token.duplicate();
        moved.transfer(arg.to.duplicate());
        let token_id = moved.id;
        self.tokens.set(idx, moved);
        proof {
            assert forall|j: int| 0 <= j < t0.len() && j != idx ==> t0[j].id != tv.id by {}
            assert(self@.tokens =~= set_owner(t0, arg@.token_id, arg@.to));
            assert forall|i2: int, j2: int|
                0 <= i2 < j2 < self@.tokens.len() implies self@.tokens[i2].id
                < self@.tokens[j2].id by {
                assert(self@.tokens[i2].id == t0[i2].id);
                assert(self@.tokens[j2].id == t0[j2].id);
            }
        }
        Ok(token_id)
    }

    /// Transfers the listed tokens to their destinations, one element at
    /// a time and independently: each element's result does not affect
    /// the others', and failed elements leave their token untouched.
    #[verifier::loop_isolation(false)]
    pub fn icrc7_transfer(&mut self, caller: Account, args: Vec<TransferArg>) -> (r: Vec<
        Result<u128, Error>,
    >)
        requires
            old(self).wf(),
        ensures
            final(self).wf(),
            final(self)@.meta == old(self)@.meta,
            ({
                let (post, results) = transfer_spec(
                    old(self)@.tokens,
                    caller@,
                    transfer_args_view(args@),
                );
                final(self)@.tokens == post && r@ == results
            }),
    {
        let ghost t0 = self@.tokens;
        let ghost av = transfer_args_view(args@);
        let mut results: Vec<Result<u128, Error>> = Vec::new();
        let n = args.len();
        proof {
            assert(av.skip(0) =~= av);
            assert(Seq::<Result<u128, Error>>::empty() + transfer_spec(t0, caller@, av).1
                =~= transfer_spec(t0, caller@, av).1);
        }
        let mut i: usize = 0;
        while i < n
            invariant
                self.wf(),
                i <= n,
                n == args@.len(),
                self@.meta == old(self)@.meta,
                results@.len() == i,
                ({
                    let full = transfer_spec(t0, caller@, av);
                    let rest = transfer_spec(self@.tokens, caller@, av.skip(i as int));
                    full.0 == rest.0 && full.1 == results@ + rest.1
                }),
            decreases n - i,
        {
            proof {
                assert(av.skip(i as int)[0] == av[i as int]);
                assert(av.skip(i as int).drop_first() =~= av.skip(i as int + 1));
                assert(av[i as int] == args@[i as int]@);
            }
            let ghost prev_results = results@;
            let res = self.transfer_one(&caller, &args[i]);
            results.push(res);
            proof {
                let rest_new = transfer_spec(self@.tokens, caller@, av.skip(i as int + 1));
                assert(prev_results + (seq![res] + rest_new.1) =~= results@ + rest_new.1);
            }
            i = i + 1;
        }
        proof {
            assert(av.skip(n as int) =~= Seq::<TransferArgV>::empty());
            assert(results@ + Seq::<Result<u128, Error>>::empty() =~= results@);
        }
        results
    }

    /// The base URI, or `NotSet` while it is still empty.
    pub fn base_uri(&self) -> (r: Result<String, Error>)
        ensures
            match r {
                Ok(s) => self@.meta.base_uri.len() > 0 && s@ == self@.meta.base_uri,
                Err(e) => self@.meta.base_uri.len() == 0 && e is NotSet,
            },
    {
        if self.metadata.base_token_uri.as_str().is_empty() {
            Err(Error::NotSet)
        } else {
            Ok(self.metadata.base_token_uri.clone())
        }
    }

    /// Overwrites the base URI unconditionally; authorization is the
    /// calling facade's business, not this operation's.
    pub fn set_base_uri(&mut self, args: SetBaseUriArgs) -> (r: Result<(), Error>)
        ensures
            r is Ok,
            final(self)@.meta == (MetaV { base_uri: args.uri@, ..old(self)@.meta }),
            final(self)@.tokens == old(self)@.tokens,
    {
        self.metadata.base_token_uri = args.uri;
        Ok(())
    }

    /// The URI of one token: `NonExistentToken` for an unknown id, the
    /// empty string while the base URI is unset, and otherwise the base
    /// URI followed by the token id in decimal.
    pub fn token_uri(&self, token_id: u128) -> (r: Result<String, Error>)
        ensures
            match r {
                Ok(s) => has_token(self@.tokens, token_id) && (if self@.meta.base_uri.len() == 0 {
                    s@ == Seq::<char>::empty()
                } else {
                    s@ == self@.meta.base_uri + dec_rep(token_id as nat)
                }),
                Err(e) => !has_token(self@.tokens, token_id) && e is NonExistentToken,
            },
    {
        if self.lookup(token_id).is_none() {
            return Err(Error::NonExistentToken);
        }
        if self.metadata.base_token_uri.as_str().is_empty() {
            let empty = String::new();
            return Ok(empty);
        }
        let mut s = self.metadata.base_token_uri.clone();
        push_decimal(&mut s, token_id);
        Ok(s)
    }

    /// The owners of the listed tokens, position by position, with
    /// `None` for an unknown id.
    pub fn icrc7_owner_of(&self, token_ids: Vec<u128>) -> (r: Vec<Option<Account>>)
        ensures
            r@.len() == token_ids@.len(),
            forall|i: int|
                0 <= i < r@.len() ==> account_opt_view(r@[i]) == owner_of_spec(
                    self@.tokens,
                    token_ids@[i],
                ),
    {
        let mut out: Vec<Option<Account>> = Vec::new();
        let n = token_ids.len();
        let mut i: usize = 0;
        while i < n
            invariant
                i <= n,
                n == token_ids@.len(),
                out@.len() == i,
                forall|j: int|
                    0 <= j < i ==> account_opt_view(out@[j]) == owner_of_spec(
                        self@.tokens,
                        token_ids@[j],
                    ),
            decreases n - i,
        {
            let entry = match self.lookup(token_ids[i]) {
                Some(idx) => Some(self.tokens[idx].owner.duplicate()),
                None => None,
            };
            out.push(entry);
            i = i + 1;
        }
        out
    }

    /// The metadata of the listed tokens, position by position, with
    /// `None` for an unknown id.
    pub fn icrc7_token_metadata(&self, token_ids: Vec<u128>) -> (r: Vec<Option<TokenMetadata>>)
        ensures
            r@.len() == token_ids@.len(),
            forall|i: int|
                0 <= i < r@.len() ==> token_metadata_opt_view(r@[i]) == token_metadata_spec(
                    self@.tokens,
                    token_ids@[i],
                ),
    {
        let mut out: Vec<Option<TokenMetadata>> = Vec::new();
        let n = token_ids.len();
        let mut i: usize = 0;
        while i < n
            invariant
                i <= n,
                n == token_ids@.len(),
                out@.len() == i,
                forall|j: int|
                    0 <= j < i ==> token_metadata_opt_view(out@[j]) == token_metadata_spec(
                        self@.tokens,
                        token_ids@[j],
                    ),
            decreases n - i,
        {
            let entry = match self.lookup(token_ids[i]) {
                Some(idx) => {
                    let t = &self.tokens[idx];
                    Some(
                        TokenMetadata {
                            name: t.name.clone(),
                            description: clone_str_opt(&t.description),
                            logo: clone_str_opt(&t.logo),
                        },
                    )
                },
                None => None,
            };
            out.push(entry);
            i = i + 1;
        }
        out
    }

    /// How many tokens each listed account owns: a linear scan over the
    /// whole store per account.
    pub fn icrc7_balance_of(&self, accounts: Vec<Account>) -> (r: Vec<u128>)
        ensures
            r@.len() == accounts@.len(),
            forall|i: int|
                0 <= i < r@.len() ==> r@[i] == owned_count(self@.tokens, accounts@[i]@),
    {
        let mut out: Vec<u128> = Vec::new();
        let n = accounts.len();
        let m = self.tokens.len();
        let mut i: usize = 0;
        while i < n
            invariant
                i <= n,
                n == accounts@.len(),
                m == self@.tokens.len(),
                out@.len() == i,
                forall|j: int| 0 <= j < i ==> out@[j] == owned_count(self@.tokens, accounts@[j]@),
            decreases n - i,
        {
            let acc = &accounts[i];
            let mut cnt: u128 = 0;
            let mut j: usize = 0;
            while j < m
                invariant
                    j <= m,
                    m == self@.tokens.len(),
                    cnt == owned_count(self@.tokens.take(j as int), acc@),
                    cnt <= j,
                decreases m - j,
            {
                proof {
                    assert(self@.tokens.take(j + 1 as int).drop_last() =~= self@.tokens.take(
                        j as int,
                    ));
                    assert(self@.tokens.take(j + 1 as int).last() == self@.tokens[j as int]);
                }
                if self.tokens[j].owner.matches(acc) {
                    cnt = cnt + 1;
                }
                j = j + 1;
            }
            proof {
                assert(self@.tokens.take(m as int) =~= self@.tokens);
            }
            out.push(cnt);
            i = i + 1;
        }
        out
    }

    /// The token ids beyond the cursor `prev`, in increasing order,
    /// cut to at most `take` entries where one is given.
    #[verifier::loop_isolation(false)]
    pub fn icrc7_tokens(&self, prev: Option<u128>, take: Option<u128>) -> (r: Vec<u128>)
        ensures
            r@ == page(ids_above(self@.tokens, prev), take),
    {
        let mut out: Vec<u128> = Vec::new();
        let m = self.tokens.len();
        let mut j: usize = 0;
        while j < m
            invariant
                j <= m,
                out@ == ids_above(self@.tokens.take(j as int), prev),
            decreases m - j,
        {
            proof {
                assert(self@.tokens.take(j + 1 as int).drop_last() =~= self@.tokens.take(j as int));
                assert(self@.tokens.take(j + 1 as int).last() == self@.tokens[j as int]);
            }
            let keep = match prev {
                None => true,
                Some(p) => self.tokens[j].id > p,
            };
            if keep {
                out.push(self.tokens[j].id);
            }
            proof {
                assert(out@ =~= ids_above(self@.tokens.take(j + 1 as int), prev));
            }
            j = j + 1;
        }
        proof {
            assert(self@.tokens.take(m as int) =~= self@.tokens);
        }
        let ghost full = ids_above(self@.tokens, prev);
        proof {
            assert(full.take(full.len() as int) =~= full);
        }
        if let Some(t) = take {
            while out.len() as u128 > t
                invariant
                    out@.len() <= full.len(),
                    full.len() > t ==> out@.len() >= t,
                    full.len() <= t ==> out@.len() == full.len(),
                    out@ == full.take(out@.len() as int),
                decreases out.len(),
            {
                let ghost k = out@.len() as int;
                out.pop();
                proof {
                    assert(full.take(k).drop_last() =~= full.take(k - 1));
                }
            }
            proof {
                if full.len() > t {
                    assert(out@.len() == t);
                    assert(out@ =~= full.take(t as int));
                } else {
                    assert(out@ =~= full);
                }
            }
        }
        proof {
            if take is None {
                assert(out@ =~= full);
            }
        }
        out
    }

    /// The ids of the account's tokens beyond the cursor `prev`, in
    /// increasing order, cut to at most `take` entries where one is
    /// given.
    #[verifier::loop_isolation(false)]
    pub fn icrc7_tokens_of(&self, account: Account, prev: Option<u128>, take: Option<u128>) -> (r:
        Vec<u128>)
        ensures
            r@ == page(ids_above_of(self@.tokens, account@, prev), take),
    {
        let mut out: Vec<u128> = Vec::new();
        let m = self.tokens.len();
        let mut j: usize = 0;
        while j < m
            invariant
                j <= m,
                out@ == ids_above_of(self@.tokens.take(j as int), account@, prev),
            decreases m - j,
        {
            proof {
                assert(self@.tokens.take(j + 1 as int).drop_last() =~= self@.tokens.take(j as int));
                assert(self@.tokens.take(j + 1 as int).last() == self@.tokens[j as int]);
            }
            let beyond = match prev {
                None => true,
                Some(p) => self.tokens[j].id > p,
            };
            let keep = beyond && self.tokens[j].owner.matches(&account);
            if keep {
                out.push(self.tokens[j].id);
            }
            proof {
                assert(out@ =~= ids_above_of(self@.tokens.take(j + 1 as int), account@, prev));
            }
            j = j + 1;
        }
        proof {
            assert(self@.tokens.take(m as int) =~= self@.tokens);
        }
        let ghost full = ids_above_of(self@.tokens, account@, prev);
        proof {
            assert(full.take(full.len() as int) =~= full);
        }
        if let Some(t) = take {
            while out.len() as u128 > t
                invariant
                    out@.len() <= full.len(),
                    full.len() > t ==> out@.len() >= t,
                    full.len() <= t ==> out@.len() == full.len(),
                    out@ == full.take(out@.len() as int),
                decreases out.len(),
            {
                let ghost k = out@.len() as int;
                out.pop();
                proof {
                    assert(full.take(k).drop_last() =~= full.take(k - 1));
                }
            }
            proof {
                if full.len() > t {
                    assert(out@.len() == t);
                    assert(out@ =~= full.take(t as int));
                } else {
                    assert(out@ =~= full);
                }
            }
        }
        proof {
            if take is None {
                assert(out@ =~= full);
            }
        }
        out
    }

    /// The whole collection metadata listing.
    pub fn icrc7_collection_metadata(&self) -> (r: Vec<MetadataEntry>)
        ensures
            entries_view(r@) == collection_metadata_spec(self@),
    {
        let mut out: Vec<MetadataEntry> = Vec::new();
        proof {
            assert(entries_view(out@) =~= Seq::<MetadataEntryV>::empty());
        }
        push_text_entry(&mut out, "icrc7:name", &self.metadata.icrc7_name);
        push_text_entry(&mut out, "icrc7:symbol", &self.metadata.icrc7_symbol);
        push_text_entry(&mut out, "icrc7:logo", &self.metadata.icrc7_logo);
        push_text_entry(&mut out, "icrc7:description", &self.metadata.icrc7_description);
        let supply = self.tokens.len() as u128;
        out.push(
            MetadataEntry { key: "icrc7:total_supply".to_owned(), value: MetadataValue::Nat(supply) },
        );
        proof {
            assert(entries_view(out@) =~= entries_view(out@.drop_last()) + seq![
                MetadataEntryV {
                    key: "icrc7:total_supply"@,
                    value: MetadataValueV::Nat(self@.tokens.len() as u128),
                },
            ]);
        }
        push_nat_entry(&mut out, "icrc7:supply_cap", self.metadata.icrc7_supply_cap);
        push_nat_entry(
            &mut out,
            "icrc7:max_query_batch_size",
            self.metadata.icrc7_max_query_batch_size,
        );
        push_nat_entry(
            &mut out,
            "icrc7:max_update_batch_size",
            self.metadata.icrc7_max_update_batch_size,
        );
        push_nat_entry(&mut out, "icrc7:default_take_value", self.metadata.icrc7_default_take_value);
        push_nat_entry(&mut out, "icrc7:max_take_value", self.metadata.icrc7_max_take_value);
        push_nat_entry(&mut out, "icrc7:max_memo_size", self.metadata.icrc7_max_memo_size);
        push_nat_entry(&mut out, "icrc7:permitted_drift", self.metadata.icrc7_permitted_drift);
        push_nat_entry(&mut out, "icrc7:tx_window", self.metadata.icrc7_tx_window);
        proof {
            assert(entries_view(out@) =~= collection_metadata_spec(self@));
        }
        out
    }

    /// The collection name, if set.
    pub fn icrc7_name(&self) -> (r: Option<String>)
        ensures
            str_opt_view(r) == self@.meta.name,
    {
        clone_str_opt(&self.metadata.icrc7_name)
    }

    /// The collection symbol, if set.
    pub fn icrc7_symbol(&self) -> (r: Option<String>)
        ensures
            str_opt_view(r) == self@.meta.symbol,
    {
        clone_str_opt(&self.metadata.icrc7_symbol)
    }

    /// The supply cap, if set.
    pub fn icrc7_supply_cap(&self) -> (r: Option<u128>)
        ensures
            r == self@.meta.supply_cap,
    {
        self.metadata.icrc7_supply_cap
    }

    /// The collection description, if set.
    pub fn icrc7_description(&self) -> (r: Option<String>)
        ensures
            str_opt_view(r) == self@.meta.description,
    {
        clone_str_opt(&self.metadata.icrc7_description)
    }

    /// The collection logo, if set.
    pub fn icrc7_logo(&self) -> (r: Option<String>)
        ensures
            str_opt_view(r) == self@.meta.logo,
    {
        clone_str_opt(&self.metadata.icrc7_logo)
    }

    /// The query batch-size ceiling, if set.
    pub fn icrc7_max_query_batch_size(&self) -> (r: Option<u128>)
        ensures
            r == self@.meta.max_query_batch_size,
    {
        self.metadata.icrc7_max_query_batch_size
    }

    /// The update batch-size ceiling, if set.
    pub fn icrc7_max_update_batch_size(&self) -> (r: Option<u128>)
        ensures
            r == self@.meta.max_update_batch_size,
    {
        self.metadata.icrc7_max_update_batch_size
    }

    /// The default page size, if set.
    pub fn icrc7_default_take_value(&self) -> (r: Option<u128>)
        ensures
            r == self@.meta.default_take_value,
    {
        self.metadata.icrc7_default_take_value
    }

    /// The page-size ceiling, if set.
    pub fn icrc7_max_take_value(&self) -> (r: Option<u128>)
        ensures
            r == self@.meta.max_take_value,
    {
        self.metadata.icrc7_max_take_value
    }

    /// The memo-size ceiling, if set.
    pub fn icrc7_max_memo_size(&self) -> (r: Option<u128>)
        ensures
            r == self@.meta.max_memo_size,
    {
        self.metadata.icrc7_max_memo_size
    }

    /// Whether batch transfers are promised to be atomic, if declared.
    pub fn icrc7_atomic_batch_transfer(&self) -> (r: Option<bool>)
        ensures
            r == self@.meta.atomic_batch_transfer,
    {
        self.metadata.icrc7_atomic_batch_transfer
    }

    /// The transaction deduplication window, if set.
    pub fn icrc7_tx_window(&self) -> (r: Option<u128>)
        ensures
            r == self@.meta.tx_window,
    {
        self.metadata.icrc7_tx_window
    }

    /// The permitted clock drift, if set.
    pub fn icrc7_permitted_drift(&self) -> (r: Option<u128>)
        ensures
            r == self@.meta.permitted_drift,
    {
        self.metadata.icrc7_permitted_drift
    }

    /// Rebuilds a ledger from previously persisted parts, as after a
    /// host restart; accepted exactly when the token store is ordered by
    /// strictly increasing id.
    pub fn restore(metadata: CollectionMetadata, tokens: Vec<Token>) -> (r: Option<Ledger>)
        ensures
            match r {
                Some(l) => l.wf() && l@.meta == metadata@ && l@.tokens == tokens@.map_values(
                    |t: Token| t@,
                ),
                None => !tokens_sorted(tokens@.map_values(|t: Token| t@)),
            },
    {
        let ghost tv = tokens@.map_values(|t: Token| t@);
        let n = tokens.len();
        let mut i: usize = 1;
        while i < n
            invariant
                1 <= i,
                n == tokens@.len(),
                tv == tokens@.map_values(|t: Token| t@),
                forall|k: int| 0 < k < i ==> #[trigger] tv[k - 1].id < tv[k].id,
            decreases n - i,
        {
            if tokens[i - 1].id >= tokens[i].id {
                proof {
                    assert(tv[i - 1].id >= tv[i as int].id);
                }
                return None;
            }
            i = i + 1;
        }
        proof {
            lemma_adjacent_sorted(tv);
        }
        Some(Ledger { metadata, tokens })
    }
}

/// A store whose neighbours are ordered is ordered throughout.
pub proof fn lemma_adjacent_sorted(s: Seq<TokenV>)
    requires
        forall|k: int| 0 < k < s.len() ==> #[trigger] s[k - 1].id < s[k].id,
    ensures
        tokens_sorted(s),
{
    assert forall|i: int, j: int| 0 <= i < j < s.len() implies s[i].id < s[j].id by {
        lemma_ids_increase(s, i, j);
    }
}

/// Ids increase between any two positions of a neighbour-ordered store.
proof fn lemma_ids_increase(s: Seq<TokenV>, i: int, j: int)
    requires
        forall|k: int| 0 < k < s.len() ==> #[trigger] s[k - 1].id < s[k].id,
        0 <= i < j < s.len(),
    ensures
        s[i].id < s[j].id,
    decreases j - i,
{
    if j > i + 1 {
        lemma_ids_increase(s, i, j - 1);
    }
    assert(s[j - 1].id < s[j].id);
}

/// A no-op: burning is declared for interface parity and intentionally
/// does nothing, since tokens are never destroyed in this design.
pub fn burn() {
}

/// One supported-standard entry of the discovery query.
#[derive(Debug)]
pub struct Standard {
    pub name: String,
    pub url: String,
}

/// The standards this service implements, for discovery.
pub fn icrc10_supported_standards() -> (r: Vec<Standard>)
    ensures
        r@.len() == 2,
        r@[0].name@ == "ICRC-7"@,
        r@[0].url@ == "https://github.com/dfinity/ICRC/ICRCs/ICRC-7"@,
        r@[1].name@ == "ICRC-61"@,
        r@[1].url@ == "https://github.com/dfinity/ICRC/ICRCs/ICRC-61"@,
{
    let mut r: Vec<Standard> = Vec::new();
    r.push(
        Standard {
            name: "ICRC-7".to_owned(),
            url: "https://github.com/dfinity/ICRC/ICRCs/ICRC-7".to_owned(),
        },
    );
    r.push(
        Standard {
            name: "ICRC-61".to_owned(),
            url: "https://github.com/dfinity/ICRC/ICRCs/ICRC-61".to_owned(),
        },
    );
    r
}

} // verus!
