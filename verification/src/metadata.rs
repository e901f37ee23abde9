//! Collection metadata: the singleton record the ledger keeps beside the
//! token map, and the key/value entries the metadata query returns.

use vstd::prelude::*;
use crate::account::{Account, AccountV};
use crate::token::{str_opt_view, clone_str_opt};

verus! {

/// A value of a metadata entry: a text or a natural number.
#[derive(Debug)]
pub enum MetadataValue {
    Text(String),
    Nat(u128),
}

/// The mathematical value of a metadata value.
pub ghost enum MetadataValueV {
    Text(Seq<char>),
    Nat(u128),
}

impl View for MetadataValue {
    type V = MetadataValueV;

    open spec fn view(&self) -> MetadataValueV {
        match self {
            MetadataValue::Text(s) => MetadataValueV::Text(s@),
            MetadataValue::Nat(n) => MetadataValueV::Nat(*n),
        }
    }
}

/// One key/value entry of the collection metadata query.
#[derive(Debug)]
pub struct MetadataEntry {
    pub key: String,
    pub value: MetadataValue,
}

/// The mathematical value of a metadata entry.
#[verifier::ext_equal]
pub ghost struct MetadataEntryV {
    pub key: Seq<char>,
    pub value: MetadataValueV,
}

impl View for MetadataEntry {
    type V = MetadataEntryV;

    open spec fn view(&self) -> MetadataEntryV {
        MetadataEntryV { key: self.key@, value: self.value@ }
    }
}

/// The mathematical value of a sequence of metadata entries.
pub open spec fn entries_view(s: Seq<MetadataEntry>) -> Seq<MetadataEntryV> {
    s.map_values(|e: MetadataEntry| e@)
}

/// The mathematical value of an optional account.
pub open spec fn account_opt_view(a: Option<Account>) -> Option<AccountV> {
    match a {
        Some(x) => Some(x@),
        None => None,
    }
}

/// The collection's singleton metadata record. `next_token_id` is the
/// sole source of new token ids: it starts at 1, never decreases, and is
/// bumped exactly once per successful mint.
#[derive(Debug)]
pub struct CollectionMetadata {
    pub icrc7_name: Option<String>,
    pub icrc7_symbol: Option<String>,
    pub icrc7_supply_cap: Option<u128>,
    pub icrc7_description: Option<String>,
    pub icrc7_logo: Option<String>,
    pub icrc7_max_query_batch_size: Option<u128>,
    pub icrc7_max_update_batch_size: Option<u128>,
    pub icrc7_default_take_value: Option<u128>,
    pub icrc7_max_take_value: Option<u128>,
    pub icrc7_max_memo_size: Option<u128>,
    pub icrc7_atomic_batch_transfer: Option<bool>,
    pub icrc7_tx_window: Option<u128>,
    pub icrc7_permitted_drift: Option<u128>,
    pub base_token_uri: String,
    pub next_token_id: u128,
    pub minting_auth: Option<Account>,
}

/// The mathematical value of the collection metadata.
#[verifier::ext_equal]
pub ghost struct MetaV {
    pub name: Option<Seq<char>>,
    pub symbol: Option<Seq<char>>,
    pub supply_cap: Option<u128>,
    pub description: Option<Seq<char>>,
    pub logo: Option<Seq<char>>,
    pub max_query_batch_size: Option<u128>,
    pub max_update_batch_size: Option<u128>,
    pub default_take_value: Option<u128>,
    pub max_take_value: Option<u128>,
    pub max_memo_size: Option<u128>,
    pub atomic_batch_transfer: Option<bool>,
    pub tx_window: Option<u128>,
    pub permitted_drift: Option<u128>,
    pub base_uri: Seq<char>,
    pub next_token_id: u128,
    pub minting_auth: Option<AccountV>,
}

impl View for CollectionMetadata {
    type V = MetaV;

    open spec fn view(&self) -> MetaV {
        MetaV {
            name: str_opt_view(self.icrc7_name),
            symbol: str_opt_view(self.icrc7_symbol),
            supply_cap: self.icrc7_supply_cap,
            description: str_opt_view(self.icrc7_description),
            logo: str_opt_view(self.icrc7_logo),
            max_query_batch_size: self.icrc7_max_query_batch_size,
            max_update_batch_size: self.icrc7_max_update_batch_size,
            default_take_value: self.icrc7_default_take_value,
            max_take_value: self.icrc7_max_take_value,
            max_memo_size: self.icrc7_max_memo_size,
            atomic_batch_transfer: self.icrc7_atomic_batch_transfer,
            tx_window: self.icrc7_tx_window,
            permitted_drift: self.icrc7_permitted_drift,
            base_uri: self.base_token_uri@,
            next_token_id: self.next_token_id,
            minting_auth: account_opt_view(self.minting_auth),
        }
    }
}

impl CollectionMetadata {
    /// The record before initialization: everything absent, the base URI
    /// empty, the id counter at its start.
    pub fn empty() -> (r: CollectionMetadata)
        ensures
            r@ == (MetaV {
                name: None,
                symbol: None,
                supply_cap: None,
                description: None,
                logo: None,
                max_query_batch_size: None,
                max_update_batch_size: None,
                default_take_value: None,
                max_take_value: None,
                max_memo_size: None,
                atomic_batch_transfer: None,
                tx_window: None,
                permitted_drift: None,
                base_uri: Seq::<char>::empty(),
                next_token_id: 1u128,
                minting_auth: None,
            }),
    {
        let r = CollectionMetadata {
            icrc7_name: None,
            icrc7_symbol: None,
            icrc7_supply_cap: None,
            icrc7_description: None,
            icrc7_logo: None,
            icrc7_max_query_batch_size: None,
            icrc7_max_update_batch_size: None,
            icrc7_default_take_value: None,
            icrc7_max_take_value: None,
            icrc7_max_memo_size: None,
            icrc7_atomic_batch_transfer: None,
            icrc7_tx_window: None,
            icrc7_permitted_drift: None,
            base_token_uri: String::new(),
            next_token_id: 1,
            minting_auth: None,
        };
        proof {
            assert(r@.base_uri =~= Seq::<char>::empty());
        }
        r
    }

    /// A copy of this record.
    pub fn duplicate(&self) -> (r: CollectionMetadata)
        ensures
            r@ == self@,
    {
        CollectionMetadata {
            icrc7_name: clone_str_opt(&self.icrc7_name),
            icrc7_symbol: clone_str_opt(&self.icrc7_symbol),
            icrc7_supply_cap: self.icrc7_supply_cap,
            icrc7_description: clone_str_opt(&self.icrc7_description),
            icrc7_logo: clone_str_opt(&self.icrc7_logo),
            icrc7_max_query_batch_size: self.icrc7_max_query_batch_size,
            icrc7_max_update_batch_size: self.icrc7_max_update_batch_size,
            icrc7_default_take_value: self.icrc7_default_take_value,
            icrc7_max_take_value: self.icrc7_max_take_value,
            icrc7_max_memo_size: self.icrc7_max_memo_size,
            icrc7_atomic_batch_transfer: self.icrc7_atomic_batch_transfer,
            icrc7_tx_window: self.icrc7_tx_window,
            icrc7_permitted_drift: self.icrc7_permitted_drift,
            base_token_uri: self.base_token_uri.clone(),
            next_token_id: self.next_token_id,
            minting_auth: match &self.minting_auth {
                Some(a) => Some(a.duplicate()),
                None => None,
            },
        }
    }
}

/// The arguments the ledger is initialized with.
#[derive(Debug)]
pub struct InitArg {
    pub minting_auth: Option<Account>,
    pub icrc7_name: String,
    pub icrc7_symbol: String,
    pub icrc7_supply_cap: Option<u128>,
    pub icrc7_description: Option<String>,
    pub icrc7_logo: Option<String>,
}

/// The arguments for overwriting the base URI.
#[derive(Debug)]
pub struct SetBaseUriArgs {
    pub uri: String,
}

} // verus!
