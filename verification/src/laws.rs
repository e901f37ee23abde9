//! The ledger's global guarantees, stated and proved over the same
//! spec functions the operations' contracts use.

use vstd::prelude::*;
use crate::account::AccountV;
use crate::errors::Error;
use crate::ledger::{
    LedgerV, find_token, has_token, tokens_sorted, sorted_insert, mint_spec, mint_batch_spec,
    transfer_one_spec, lemma_find_token_characterization, lemma_sorted_insert_at,
};
use crate::token::{TokenV, TransferArgV};

verus! {

/// Reachable ledgers have contiguous ids: the store holds exactly the
/// ids 1 up to (but excluding) `next_token_id`, in order. `init`
/// establishes this, and `lemma_mint_ids_sequential` keeps it.
pub open spec fn ids_contiguous(l: LedgerV) -> bool {
    &&& 1 <= l.meta.next_token_id
    &&& l.tokens.len() == l.meta.next_token_id - 1
    &&& forall|i: int| 0 <= i < l.tokens.len() ==> #[trigger] l.tokens[i].id == i + 1
}

/// A ledger with no tokens and the counter at its start has contiguous
/// ids; this is exactly the state `init` returns.
pub proof fn lemma_fresh_contiguous(l: LedgerV)
    requires
        l.tokens.len() == 0,
        l.meta.next_token_id == 1,
    ensures
        ids_contiguous(l),
{
}

/// Token ids are assigned strictly increasing from 1, with no gaps or
/// repeats: from any state with contiguous ids, a mint cannot conflict,
/// returns exactly the counter's value, appends its token at the end,
/// and leaves the ids contiguous again.
pub proof fn lemma_mint_ids_sequential(
    l: LedgerV,
    owner: AccountV,
    name: Seq<char>,
    description: Option<Seq<char>>,
    logo: Option<Seq<char>>,
)
    requires
        ids_contiguous(l),
        l.meta.next_token_id < u128::MAX,
    ensures
        ({
            let (post, res) = mint_spec(l, owner, name, description, logo);
            &&& res == Ok::<u128, Error>(l.meta.next_token_id)
            &&& ids_contiguous(post)
            &&& post.meta.next_token_id == l.meta.next_token_id + 1
            &&& post.tokens == l.tokens.push(
                TokenV { id: l.meta.next_token_id, owner, name, description, logo },
            )
        }),
{
    let id = l.meta.next_token_id;
    let t = TokenV { id, owner, name, description, logo };
    lemma_find_token_characterization(l.tokens, id);
    if find_token(l.tokens, id) is Some {
        let e = find_token(l.tokens, id)->Some_0;
        let i = choose|i: int| 0 <= i < l.tokens.len() && l.tokens[i] == e;
        assert(l.tokens[i].id == i + 1);
        assert(false);
    }
    let n = l.tokens.len() as int;
    lemma_sorted_insert_at(l.tokens, t, n);
    l.tokens.insert_ensures(n, t);
    assert(sorted_insert(l.tokens, t) =~= l.tokens.push(t));
    let post = mint_spec(l, owner, name, description, logo).0;
    assert forall|i: int| 0 <= i < post.tokens.len() implies #[trigger] post.tokens[i].id == i
        + 1 by {
        if i < n {
            assert(post.tokens[i] == l.tokens[i]);
        }
    }
}

/// A whole batch from a state with contiguous ids succeeds and returns
/// exactly the next run of ids, in order.
pub proof fn lemma_mint_batch_ids_sequential(
    l: LedgerV,
    owners: Seq<AccountV>,
    names: Seq<Seq<char>>,
    descriptions: Seq<Option<Seq<char>>>,
    logos: Seq<Option<Seq<char>>>,
)
    requires
        ids_contiguous(l),
        names.len() == owners.len(),
        descriptions.len() == owners.len(),
        logos.len() == owners.len(),
        l.meta.next_token_id + owners.len() <= u128::MAX,
    ensures
        ({
            let (post, res) = mint_batch_spec(l, owners, names, descriptions, logos);
            &&& res == Ok::<Seq<u128>, Error>(
                Seq::new(owners.len(), |i: int| (l.meta.next_token_id + i) as u128),
            )
            &&& ids_contiguous(post)
            &&& post.meta.next_token_id == l.meta.next_token_id + owners.len()
        }),
    decreases owners.len(),
{
    if owners.len() == 0 {
        assert(Seq::new(0, |i: int| (l.meta.next_token_id + i) as u128)
            =~= Seq::<u128>::empty());
    } else {
        lemma_mint_ids_sequential(l, owners[0], names[0], descriptions[0], logos[0]);
        let mid = mint_spec(l, owners[0], names[0], descriptions[0], logos[0]).0;
        lemma_mint_batch_ids_sequential(
            mid,
            owners.drop_first(),
            names.drop_first(),
            descriptions.drop_first(),
            logos.drop_first(),
        );
        let rest_ids = Seq::new(
            owners.drop_first().len(),
            |i: int| (mid.meta.next_token_id + i) as u128,
        );
        assert(seq![l.meta.next_token_id] + rest_ids =~= Seq::new(
            owners.len(),
            |i: int| (l.meta.next_token_id + i) as u128,
        ));
    }
}

/// A transfer request on an existing token that the caller does not own
/// (identity plus subaccount) fails `Unauthorized` and changes nothing:
/// the token's owner stays as it was.
pub proof fn lemma_transfer_unauthorized(pre: Seq<TokenV>, caller: AccountV, arg: TransferArgV)
    requires
        has_token(pre, arg.token_id),
        ({
            let t = find_token(pre, arg.token_id)->Some_0;
            t.owner.owner != caller.owner || t.owner.subaccount != arg.from_subaccount
        }),
    ensures
        transfer_one_spec(pre, caller, arg) == (pre, Err::<u128, Error>(Error::Unauthorized)),
{
}

/// A transfer request whose destination is the token's current owner
/// fails `InvalidTransfer` and changes nothing.
pub proof fn lemma_transfer_to_self(pre: Seq<TokenV>, caller: AccountV, arg: TransferArgV)
    requires
        has_token(pre, arg.token_id),
        ({
            let t = find_token(pre, arg.token_id)->Some_0;
            &&& t.owner.owner == caller.owner
            &&& t.owner.subaccount == arg.from_subaccount
            &&& t.owner == arg.to
        }),
    ensures
        transfer_one_spec(pre, caller, arg) == (pre, Err::<u128, Error>(Error::InvalidTransfer)),
{
}

/// Inserting a fresh id into an ordered store keeps it ordered, makes
/// the fresh token findable, and leaves every other lookup as it was.
pub proof fn lemma_sorted_insert_find(s: Seq<TokenV>, t: TokenV)
    requires
        tokens_sorted(s),
        !has_token(s, t.id),
    ensures
        tokens_sorted(sorted_insert(s, t)),
        find_token(sorted_insert(s, t), t.id) == Some(t),
        forall|x: u128|
            x != t.id ==> #[trigger] find_token(sorted_insert(s, t), x) == find_token(s, x),
        forall|k: int|
            0 <= k < sorted_insert(s, t).len() ==> sorted_insert(s, t)[k] == t || s.contains(
                #[trigger] sorted_insert(s, t)[k],
            ),
    decreases s.len(),
{
    let res = sorted_insert(s, t);
    if s.len() == 0 {
        assert(res =~= seq![t]);
        assert forall|x: u128| x != t.id implies #[trigger] find_token(res, x) == find_token(
            s,
            x,
        ) by {
            assert(res.drop_first() =~= s);
        }
    } else if t.id < s[0].id {
        assert(res =~= seq![t] + s);
        assert forall|k: int| 0 <= k < res.len() implies res[k] == t || s.contains(
            #[trigger] res[k],
        ) by {
            if k > 0 {
                assert(res[k] == s[k - 1]);
            }
        }
        assert forall|x: u128| x != t.id implies #[trigger] find_token(res, x) == find_token(
            s,
            x,
        ) by {
            assert(res.drop_first() =~= s);
        }
        assert forall|i: int, j: int| 0 <= i < j < res.len() implies res[i].id < res[j].id by {
            if i > 0 {
                assert(res[i] == s[i - 1]);
            }
            assert(res[j] == s[j - 1]);
        }
        assert(find_token(res, t.id) == Some(t));
    } else {
        assert(s[0].id != t.id) by {
            if s[0].id == t.id {
                assert(find_token(s, t.id) == Some(s[0]));
            }
        }
        assert(find_token(s.drop_first(), t.id) == find_token(s, t.id));
        assert forall|i: int, j: int|
            0 <= i < j < s.drop_first().len() implies s.drop_first()[i].id
            < s.drop_first()[j].id by {
            assert(s.drop_first()[i] == s[i + 1]);
            assert(s.drop_first()[j] == s[j + 1]);
        }
        lemma_sorted_insert_find(s.drop_first(), t);
        let inner = sorted_insert(s.drop_first(), t);
        assert(res =~= seq![s[0]] + inner);
        assert(res[0] == s[0]);
        assert forall|k: int| 0 <= k < res.len() implies res[k] == t || s.contains(
            #[trigger] res[k],
        ) by {
            if k > 0 {
                assert(res[k] == inner[k - 1]);
                if inner[k - 1] != t {
                    let m = choose|m: int|
                        0 <= m < s.drop_first().len() && s.drop_first()[m] == inner[k - 1];
                    assert(s[m + 1] == inner[k - 1]);
                }
            }
        }
        assert forall|i: int, j: int| 0 <= i < j < res.len() implies res[i].id < res[j].id by {
            if i > 0 {
                assert(res[i] == inner[i - 1]);
                assert(res[j] == inner[j - 1]);
            } else {
                assert(res[j] == inner[j - 1]);
                if inner[j - 1] == t {
                    assert(res[j].id == t.id);
                    assert(s[0].id < t.id);
                } else {
                    let m = choose|m: int|
                        0 <= m < s.drop_first().len() && s.drop_first()[m] == inner[j - 1];
                    assert(s.drop_first()[m] == s[m + 1]);
                    assert(res[j].id == s[m + 1].id);
                }
            }
        }
        assert(res.drop_first() =~= inner);
        assert(find_token(res, t.id) == Some(t));
        assert forall|x: u128| x != t.id implies #[trigger] find_token(res, x) == find_token(
            s,
            x,
        ) by {
            assert(find_token(res, x) == find_token(inner, x) || x == s[0].id);
        }
    }
}

/// One mint never removes or alters an existing token, whether the mint
/// succeeds or reports a conflict.
pub proof fn lemma_mint_preserves_tokens(
    l: LedgerV,
    owner: AccountV,
    name: Seq<char>,
    description: Option<Seq<char>>,
    logo: Option<Seq<char>>,
)
    requires
        tokens_sorted(l.tokens),
    ensures
        ({
            let post = mint_spec(l, owner, name, description, logo).0;
            &&& tokens_sorted(post.tokens)
            &&& forall|id: u128|
                has_token(l.tokens, id) ==> #[trigger] find_token(post.tokens, id) == find_token(
                    l.tokens,
                    id,
                )
        }),
{
    let next = l.meta.next_token_id;
    if !has_token(l.tokens, next) {
        let t = TokenV { id: next, owner, name, description, logo };
        lemma_sorted_insert_find(l.tokens, t);
    }
}

/// Position `k` carries the batch's failing mint: the `k` earlier
/// mints succeed, the mint at `k` fails, its error is the batch's whole
/// result, and the final state is exactly what the successful prefix
/// built — the failing mint and the never-attempted elements after it
/// leave nothing behind.
pub open spec fn batch_fails_at(
    l: LedgerV,
    owners: Seq<AccountV>,
    names: Seq<Seq<char>>,
    descriptions: Seq<Option<Seq<char>>>,
    logos: Seq<Option<Seq<char>>>,
    k: int,
) -> bool {
    let full = mint_batch_spec(l, owners, names, descriptions, logos);
    let prefix = mint_batch_spec(
        l,
        owners.take(k),
        names.take(k),
        descriptions.take(k),
        logos.take(k),
    );
    let step = mint_spec(prefix.0, owners[k], names[k], descriptions[k], logos[k]);
    &&& 0 <= k < owners.len()
    &&& prefix.1 is Ok
    &&& step.1 is Err
    &&& full.0 == prefix.0
    &&& full.1 == Err::<Seq<u128>, Error>(step.1->Err_0)
}

/// Every failed batch fails at some position, in the sense of
/// `batch_fails_at`: a successful prefix, one failing mint whose error
/// becomes the result, and nothing attempted after it.
pub proof fn lemma_mint_batch_stops_at_first_failure(
    l: LedgerV,
    owners: Seq<AccountV>,
    names: Seq<Seq<char>>,
    descriptions: Seq<Option<Seq<char>>>,
    logos: Seq<Option<Seq<char>>>,
)
    requires
        names.len() == owners.len(),
        descriptions.len() == owners.len(),
        logos.len() == owners.len(),
        mint_batch_spec(l, owners, names, descriptions, logos).1 is Err,
    ensures
        exists|k: int| batch_fails_at(l, owners, names, descriptions, logos, k),
    decreases owners.len(),
{
    let full = mint_batch_spec(l, owners, names, descriptions, logos);
    let stepped = mint_spec(l, owners[0], names[0], descriptions[0], logos[0]);
    if stepped.1 is Err {
        assert(owners.take(0) =~= Seq::<AccountV>::empty());
        assert(names.take(0) =~= Seq::<Seq<char>>::empty());
        assert(descriptions.take(0) =~= Seq::<Option<Seq<char>>>::empty());
        assert(logos.take(0) =~= Seq::<Option<Seq<char>>>::empty());
        assert(batch_fails_at(l, owners, names, descriptions, logos, 0));
    } else {
        let ro = owners.drop_first();
        let rn = names.drop_first();
        let rd = descriptions.drop_first();
        let rl = logos.drop_first();
        lemma_mint_batch_stops_at_first_failure(stepped.0, ro, rn, rd, rl);
        let k0 = choose|k: int| batch_fails_at(stepped.0, ro, rn, rd, rl, k);
        let k = k0 + 1;
        assert(owners.take(k)[0] == owners[0]);
        assert(owners.take(k).drop_first() =~= ro.take(k0));
        assert(names.take(k)[0] == names[0]);
        assert(names.take(k).drop_first() =~= rn.take(k0));
        assert(descriptions.take(k)[0] == descriptions[0]);
        assert(descriptions.take(k).drop_first() =~= rd.take(k0));
        assert(logos.take(k)[0] == logos[0]);
        assert(logos.take(k).drop_first() =~= rl.take(k0));
        assert(owners[k] == ro[k0]);
        assert(names[k] == rn[k0]);
        assert(descriptions[k] == rd[k0]);
        assert(logos[k] == rl[k0]);
        assert(batch_fails_at(l, owners, names, descriptions, logos, k));
    }
}

/// The batch is deliberately not atomic: whatever its outcome, the
/// tokens already in the store when a step ran stay exactly as they
/// are. In particular, when a later mint aborts the batch, everything
/// its successful prefix minted persists.
pub proof fn lemma_mint_batch_preserves_tokens(
    l: LedgerV,
    owners: Seq<AccountV>,
    names: Seq<Seq<char>>,
    descriptions: Seq<Option<Seq<char>>>,
    logos: Seq<Option<Seq<char>>>,
)
    requires
        tokens_sorted(l.tokens),
    ensures
        ({
            let post = mint_batch_spec(l, owners, names, descriptions, logos).0;
            &&& tokens_sorted(post.tokens)
            &&& forall|id: u128|
                has_token(l.tokens, id) ==> #[trigger] find_token(post.tokens, id) == find_token(
                    l.tokens,
                    id,
                )
        }),
    decreases owners.len(),
{
    if owners.len() > 0 {
        lemma_mint_preserves_tokens(l, owners[0], names[0], descriptions[0], logos[0]);
        let stepped = mint_spec(l, owners[0], names[0], descriptions[0], logos[0]);
        match stepped.1 {
            Err(e) => {
            },
            Ok(id0) => {
                lemma_mint_batch_preserves_tokens(
                    stepped.0,
                    owners.drop_first(),
                    names.drop_first(),
                    descriptions.drop_first(),
                    logos.drop_first(),
                );
            },
        }
    }
}

} // verus!
