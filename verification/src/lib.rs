//! A ledger of non-fungible tokens: who owns which token, who may move it on
//! the owner's behalf, how it changes hands, and how the proceeds of a sale
//! are split between those who hold a royalty on it.
//!
//! The ledger is a value. Each call takes what the host knows of the caller
//! (its account, the deposit it attached) as plain arguments and hands back
//! what the host is to do: the event to log, the refund to pay, the
//! notification to send.

use vstd::prelude::*;

pub mod approval;
pub mod enumeration;
pub mod error;
pub mod events;
pub mod internal;
pub mod laws;
pub mod ledger;
pub mod metadata;
pub mod mint;
pub mod nft_core;
pub mod promise;
pub mod royalty;
pub mod string_map;

pub use crate::approval::{ApprovalCall, Approved, NftApproval};
pub use crate::error::NftError;
pub use crate::events::{NftMintLog, NftTransferLog};
pub use crate::internal::{
    assert_at_least_one_yocto, assert_one_yocto, bytes_for_approved_account_id,
    refund_approved_account_ids, refund_approved_account_ids_iter, refund_deposit,
    royalty_to_payout, Refund, Transferred,
};
pub use crate::metadata::{
    AccountId, Balance, JsonToken, NFTContractMetadata, NftContractMetadata, Payout, Token, TokenId,
    TokenMetadata,
};
pub use crate::nft_core::{
    NftCore, ReceiverCall, ResolveCall, Resolved, TransferCall, TransferReceipt,
};
pub use crate::promise::PromiseResult;
pub use crate::royalty::{split_balance, NftRoyalty, TransferPayout};
pub use crate::string_map::StringMap;

use crate::ledger::LedgerView;

verus! {

/// The contract: the registry of tokens and the index of their owners.
pub struct NftContract {
    pub owner_id: AccountId,
    pub metadata: NFTContractMetadata,
    pub tokens_per_owner: StringMap<Vec<String>>,
    pub tokens_by_id: StringMap<Token>,
    pub token_metadata_by_id: StringMap<TokenMetadata>,
}

impl View for NftContract {
    type V = LedgerView;

    open spec fn view(&self) -> LedgerView {
        LedgerView {
            owner_id: self.owner_id@,
            metadata: self.metadata@,
            tokens_per_owner: self.tokens_per_owner@,
            tokens_by_id: self.tokens_by_id@,
            token_metadata_by_id: self.token_metadata_by_id@,
        }
    }
}

/// A contract with a ledger as its model. The calls of a contract ask for
/// a consistent contract and leave one.
pub trait Consistent: Sized {
    /// The ledger that the contract keeps.
    spec fn ledger(&self) -> LedgerView;

    /// The contract is well formed.
    spec fn consistent(&self) -> bool;
}

impl Consistent for NftContract {
    open spec fn ledger(&self) -> LedgerView {
        self@
    }

    open spec fn consistent(&self) -> bool {
        self.wf()
    }
}

/// What the host knows of the call that it hands on.
pub struct CallContext {
    /// The account that made the call.
    pub predecessor_account_id: AccountId,
    /// The deposit that came with the call, in yoctoNEAR.
    pub attached_deposit: Balance,
    /// The price of one byte of storage, in yoctoNEAR.
    pub storage_byte_cost: Balance,
}

impl NftContract {
    /// The three tables hold no key twice, and the model of the contract is
    /// well formed.
    pub open spec fn wf(&self) -> bool {
        &&& self.tokens_per_owner.wf()
        &&& self.tokens_by_id.wf()
        &&& self.token_metadata_by_id.wf()
        &&& self@.wf()
    }

    /// A contract without tokens, run by `owner_id`.
    pub fn new(owner_id: AccountId, metadata: NFTContractMetadata) -> (res: Self)
        ensures
            res.wf(),
            res@.owner_id == owner_id@,
            res@.metadata == metadata@,
            res@.tokens_per_owner == Map::<Seq<char>, Seq<Seq<char>>>::empty(),
            res@.tokens_by_id == Map::<Seq<char>, crate::metadata::TokenView>::empty(),
            res@.token_metadata_by_id == Map::<
                Seq<char>,
                crate::metadata::TokenMetadataView,
            >::empty(),
    {
        let res = NftContract {
            owner_id,
            metadata,
            tokens_per_owner: StringMap::new(),
            tokens_by_id: StringMap::new(),
            token_metadata_by_id: StringMap::new(),
        };
        assert(res@.tokens_per_owner =~= Map::<Seq<char>, Seq<Seq<char>>>::empty());
        assert(res@.tokens_by_id =~= Map::<Seq<char>, crate::metadata::TokenView>::empty());
        assert(res@.token_metadata_by_id =~= Map::<
            Seq<char>,
            crate::metadata::TokenMetadataView,
        >::empty());
        res
    }

    /// A contract without tokens, run by `owner_id`, under the standard
    /// description.
    pub fn new_default_metadata(owner_id: AccountId) -> (res: Self)
        ensures
            res.wf(),
            res@.owner_id == owner_id@,
            res@.metadata.spec == "nft-1.0.0"@,
            res@.metadata.name == "NFT For Learning"@,
            res@.metadata.symbol == "NFL"@,
            res@.metadata.icon is None,
            res@.metadata.base_uri is None,
            res@.metadata.reference is None,
            res@.metadata.reference_hash is None,
            res@.tokens_per_owner == Map::<Seq<char>, Seq<Seq<char>>>::empty(),
            res@.tokens_by_id == Map::<Seq<char>, crate::metadata::TokenView>::empty(),
            res@.token_metadata_by_id == Map::<
                Seq<char>,
                crate::metadata::TokenMetadataView,
            >::empty(),
    {
        Self::new(
            owner_id,
            NFTContractMetadata {
                spec: "nft-1.0.0".to_owned(),
                name: "NFT For Learning".to_owned(),
                symbol: "NFL".to_owned(),
                icon: None,
                base_uri: None,
                reference: None,
                reference_hash: None,
            },
        )
    }
}

} // verus!
