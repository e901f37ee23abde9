//! Tokens and the per-element transfer request.

use vstd::prelude::*;
use crate::account::{Account, AccountV, Subaccount, subaccount_view};

verus! {

/// The mathematical value of an optional string.
pub open spec fn str_opt_view(s: Option<String>) -> Option<Seq<char>> {
    match s {
        Some(t) => Some(t@),
        None => None,
    }
}

/// A copy of an optional string.
pub fn clone_str_opt(s: &Option<String>) -> (r: Option<String>)
    ensures
        str_opt_view(r) == str_opt_view(*s),
{
    match s {
        Some(t) => Some(t.clone()),
        None => None,
    }
}

/// A minted token. The id and the descriptive fields are immutable;
/// `owner` is the only mutable field, changed only by a successful
/// transfer.
#[derive(Debug)]
pub struct Token {
    pub id: u128,
    pub owner: Account,
    pub name: String,
    pub description: Option<String>,
    pub logo: Option<String>,
}

/// The mathematical value of a token.
#[verifier::ext_equal]
pub ghost struct TokenV {
    pub id: u128,
    pub owner: AccountV,
    pub name: Seq<char>,
    pub description: Option<Seq<char>>,
    pub logo: Option<Seq<char>>,
}

impl View for Token {
    type V = TokenV;

    open spec fn view(&self) -> TokenV {
        TokenV {
            id: self.id,
            owner: self.owner@,
            name: self.name@,
            description: str_opt_view(self.description),
            logo: str_opt_view(self.logo),
        }
    }
}

impl Token {
    /// A fresh token with the given id, owner and descriptive fields.
    pub fn new(
        id: u128,
        owner: Account,
        name: String,
        description: Option<String>,
        logo: Option<String>,
    ) -> (r: Token)
        ensures
            r@ == (TokenV {
                id,
                owner: owner@,
                name: name@,
                description: str_opt_view(description),
                logo: str_opt_view(logo),
            }),
    {
        Token { id, owner, name, description, logo }
    }

    /// Hands the token to a new owner; every other field is kept.
    pub fn transfer(&mut self, to: Account)
        ensures
            final(self)@ == (TokenV { owner: to@, ..old(self)@ }),
    {
        self.owner = to;
    }

    /// A copy of this token.
    pub fn duplicate(&self) -> (r: Token)
        ensures
            r@ == self@,
    {
        Token {
            id: self.id,
            owner: self.owner.duplicate(),
            name: self.name.clone(),
            description: clone_str_opt(&self.description),
            logo: clone_str_opt(&self.logo),
        }
    }
}

/// The descriptive fields of a token, as the metadata query returns them.
#[derive(Debug)]
pub struct TokenMetadata {
    pub name: String,
    pub description: Option<String>,
    pub logo: Option<String>,
}

/// The mathematical value of a token's metadata.
#[verifier::ext_equal]
pub ghost struct TokenMetadataV {
    pub name: Seq<char>,
    pub description: Option<Seq<char>>,
    pub logo: Option<Seq<char>>,
}

impl View for TokenMetadata {
    type V = TokenMetadataV;

    open spec fn view(&self) -> TokenMetadataV {
        TokenMetadataV {
            name: self.name@,
            description: str_opt_view(self.description),
            logo: str_opt_view(self.logo),
        }
    }
}

/// The metadata of a token value.
pub open spec fn token_metadata_of(t: TokenV) -> TokenMetadataV {
    TokenMetadataV { name: t.name, description: t.description, logo: t.logo }
}

/// One element of a transfer request.
#[derive(Debug)]
pub struct TransferArg {
    pub token_id: u128,
    pub from_subaccount: Option<Subaccount>,
    pub to: Account,
    pub memo: Option<Vec<u8>>,
    pub created_at_time: Option<u64>,
}

/// The mathematical value of a transfer request element.
#[verifier::ext_equal]
pub ghost struct TransferArgV {
    pub token_id: u128,
    pub from_subaccount: Option<Seq<u8>>,
    pub to: AccountV,
    pub memo: Option<Seq<u8>>,
    pub created_at_time: Option<u64>,
}

/// The mathematical value of an optional byte string.
pub open spec fn bytes_opt_view(s: Option<Vec<u8>>) -> Option<Seq<u8>> {
    match s {
        Some(b) => Some(b@),
        None => None,
    }
}

impl View for TransferArg {
    type V = TransferArgV;

    open spec fn view(&self) -> TransferArgV {
        TransferArgV {
            token_id: self.token_id,
            from_subaccount: subaccount_view(self.from_subaccount),
            to: self.to@,
            memo: bytes_opt_view(self.memo),
            created_at_time: self.created_at_time,
        }
    }
}

} // verus!
