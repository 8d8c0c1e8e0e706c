//! The records of the ledger and their mathematical models.

use crate::string_map::{distinct_keys, StringMap};
use crate::{Consistent, NftContract};
use vstd::prelude::*;

verus! {

/// The id of a token.
pub type TokenId = String;

/// The id of an account.
pub type AccountId = String;

/// An amount of yoctoNEAR.
pub type Balance = u128;

/// The shares of a royalty are counted in parts of this whole.
pub const ROYALTY_WHOLE: u32 = 10_000;

/// The largest number of accounts to which one token pays royalties.
pub const MAX_ROYALTIES: usize = 6;

/// The sum of the shares of `royalty`.
pub open spec fn royalty_total(royalty: Seq<(Seq<char>, u32)>) -> nat
    decreases royalty.len(),
{
    if royalty.len() == 0 {
        0
    } else {
        royalty_total(royalty.drop_last()) + royalty.last().1 as nat
    }
}

/// Every approval id of `approvals` is less than `bound`.
pub open spec fn all_below(approvals: Seq<(Seq<char>, u64)>, bound: u64) -> bool {
    forall|i: int| 0 <= i < approvals.len() ==> (#[trigger] approvals[i]).1 < bound
}

/// Every approval id of `approvals` is less than `bound`.
pub fn ids_below(approvals: &StringMap<u64>, bound: u64) -> (res: bool)
    ensures
        res == all_below(approvals.entries(), bound),
{
    let mut i: usize = 0;
    while i < approvals.len()
        invariant
            i <= approvals.entries().len(),
            forall|j: int| 0 <= j < i ==> (#[trigger] approvals.entries()[j]).1 < bound,
        decreases approvals.entries().len() - i,
    {
        if *approvals.value_at(i) >= bound {
            return false;
        }
        i += 1;
    }
    true
}

/// The shares of `royalty` do not exceed the whole.
pub fn royalty_fits(royalty: &StringMap<u32>) -> (res: bool)
    ensures
        res == (royalty_total(royalty.entries()) <= ROYALTY_WHOLE),
{
    let ghost entries = royalty.entries();
    let mut total: u128 = 0;
    let mut i: usize = 0;
    while i < royalty.len()
        invariant
            i <= entries.len(),
            entries == royalty.entries(),
            total == royalty_total(entries.take(i as int)),
            total <= i * 0xffff_ffff,
        decreases entries.len() - i,
    {
        assert(entries.take(i as int + 1).drop_last() =~= entries.take(i as int));
        assert(entries.take(i as int + 1).last() == entries[i as int]);
        assert(i * 0xffff_ffff <= 0xffff_ffff_ffff_ffff * 0xffff_ffff) by (nonlinear_arith)
            requires
                i <= 0xffff_ffff_ffff_ffff,
        ;
        total = total + *royalty.value_at(i) as u128;
        i += 1;
    }
    assert(entries.take(i as int) =~= entries);
    total <= ROYALTY_WHOLE as u128
}

/// A copy of an optional text.
pub fn clone_text(text: &Option<String>) -> (res: Option<String>)
    ensures
        res.deep_view() == text.deep_view(),
{
    match text {
        Some(s) => Some(s.clone()),
        None => None,
    }
}

/// A copy of an optional run of bytes.
pub fn clone_bytes(bytes: &Option<Vec<u8>>) -> (res: Option<Vec<u8>>)
    ensures
        res.deep_view() == bytes.deep_view(),
{
    match bytes {
        Some(b) => {
            let mut copy: Vec<u8> = Vec::new();
            let mut i: usize = 0;
            while i < b.len()
                invariant
                    i <= b.len(),
                    copy@ == b@.take(i as int),
                decreases b.len() - i,
            {
                copy.push(b[i]);
                assert(copy@ =~= b@.take(i as int + 1));
                i += 1;
            }
            assert(b@.take(i as int) =~= b@);
            assert(copy.deep_view() =~= b.deep_view());
            Some(copy)
        },
        None => None,
    }
}

/// What a payout call answers: the amount that each account is to receive.
pub struct Payout {
    pub payout: StringMap<u128>,
}

/// The description of the contract as a whole.
pub struct NFTContractMetadata {
    pub spec: String,
    pub name: String,
    pub symbol: String,
    pub icon: Option<String>,
    pub base_uri: Option<String>,
    pub reference: Option<String>,
    pub reference_hash: Option<Vec<u8>>,
}

/// The model of an `NFTContractMetadata`.
pub ghost struct ContractMetadataView {
    pub spec: Seq<char>,
    pub name: Seq<char>,
    pub symbol: Seq<char>,
    pub icon: Option<Seq<char>>,
    pub base_uri: Option<Seq<char>>,
    pub reference: Option<Seq<char>>,
    pub reference_hash: Option<Seq<u8>>,
}

impl View for NFTContractMetadata {
    type V = ContractMetadataView;

    open spec fn view(&self) -> ContractMetadataView {
        ContractMetadataView {
            spec: self.spec@,
            name: self.name@,
            symbol: self.symbol@,
            icon: self.icon.deep_view(),
            base_uri: self.base_uri.deep_view(),
            reference: self.reference.deep_view(),
            reference_hash: self.reference_hash.deep_view(),
        }
    }
}

impl Clone for NFTContractMetadata {
    fn clone(&self) -> (res: Self)
        ensures
            res@ == self@,
    {
        NFTContractMetadata {
            spec: self.spec.clone(),
            name: self.name.clone(),
            symbol: self.symbol.clone(),
            icon: clone_text(&self.icon),
            base_uri: clone_text(&self.base_uri),
            reference: clone_text(&self.reference),
            reference_hash: clone_bytes(&self.reference_hash),
        }
    }
}

/// What the registry keeps of one token.
pub struct Token {
    pub owner_id: AccountId,
    pub approved_account_ids: StringMap<u64>,
    pub next_approval_id: u64,
    pub royalty: StringMap<u32>,
}

/// The model of a `Token`.
pub ghost struct TokenView {
    /// The account that owns the token.
    pub owner_id: Seq<char>,
    /// The accounts that may transfer the token, each with its approval id.
    pub approved_account_ids: Seq<(Seq<char>, u64)>,
    /// The id that the next approval gets.
    pub next_approval_id: u64,
    /// The accounts that share in a sale, each with its share.
    pub royalty: Seq<(Seq<char>, u32)>,
}

impl TokenView {
    /// What holds of every token of the ledger: no account is approved twice
    /// or paid twice, every approval id came before the next one, at most six
    /// accounts are paid, and their shares do not exceed the whole.
    pub open spec fn wf(self) -> bool {
        &&& distinct_keys(self.approved_account_ids)
        &&& distinct_keys(self.royalty)
        &&& self.royalty.len() <= MAX_ROYALTIES
        &&& royalty_total(self.royalty) <= ROYALTY_WHOLE
        &&& all_below(self.approved_account_ids, self.next_approval_id)
    }
}

impl View for Token {
    type V = TokenView;

    open spec fn view(&self) -> TokenView {
        TokenView {
            owner_id: self.owner_id@,
            approved_account_ids: self.approved_account_ids.entries(),
            next_approval_id: self.next_approval_id,
            royalty: self.royalty.entries(),
        }
    }
}

impl DeepView for Token {
    type V = TokenView;

    open spec fn deep_view(&self) -> TokenView {
        self@
    }
}

impl Token {
    /// The record is well formed.
    pub open spec fn wf(&self) -> bool {
        self@.wf()
    }

    /// Whether the record is well formed.
    pub fn is_sound(&self) -> (res: bool)
        ensures
            res == self.wf(),
    {
        self.approved_account_ids.has_distinct_keys() && self.royalty.has_distinct_keys()
            && self.royalty.len() <= MAX_ROYALTIES && royalty_fits(&self.royalty) && ids_below(
            &self.approved_account_ids,
            self.next_approval_id,
        )
    }
}

impl Clone for Token {
    fn clone(&self) -> (res: Self)
        ensures
            res@ == self@,
    {
        Token {
            owner_id: self.owner_id.clone(),
            approved_account_ids: self.approved_account_ids.clone(),
            next_approval_id: self.next_approval_id,
            royalty: self.royalty.clone(),
        }
    }
}

/// The description of one token.
pub struct TokenMetadata {
    pub title: Option<String>,
    pub description: Option<String>,
    pub media: Option<String>,
    pub media_hash: Option<Vec<u8>>,
    pub copies: Option<u64>,
    pub issued_at: Option<u64>,
    pub expires_at: Option<u64>,
    pub starts_at: Option<u64>,
    pub updated_at: Option<u64>,
    pub extra: Option<String>,
    pub reference: Option<String>,
    pub reference_hash: Option<Vec<u8>>,
}

/// The model of a `TokenMetadata`.
pub ghost struct TokenMetadataView {
    pub title: Option<Seq<char>>,
    pub description: Option<Seq<char>>,
    pub media: Option<Seq<char>>,
    pub media_hash: Option<Seq<u8>>,
    pub copies: Option<u64>,
    pub issued_at: Option<u64>,
    pub expires_at: Option<u64>,
    pub starts_at: Option<u64>,
    pub updated_at: Option<u64>,
    pub extra: Option<Seq<char>>,
    pub reference: Option<Seq<char>>,
    pub reference_hash: Option<Seq<u8>>,
}

impl View for TokenMetadata {
    type V = TokenMetadataView;

    open spec fn view(&self) -> TokenMetadataView {
        TokenMetadataView {
            title: self.title.deep_view(),
            description: self.description.deep_view(),
            media: self.media.deep_view(),
            media_hash: self.media_hash.deep_view(),
            copies: self.copies,
            issued_at: self.issued_at,
            expires_at: self.expires_at,
            starts_at: self.starts_at,
            updated_at: self.updated_at,
            extra: self.extra.deep_view(),
            reference: self.reference.deep_view(),
            reference_hash: self.reference_hash.deep_view(),
        }
    }
}

impl DeepView for TokenMetadata {
    type V = TokenMetadataView;

    open spec fn deep_view(&self) -> TokenMetadataView {
        self@
    }
}

impl Clone for TokenMetadata {
    fn clone(&self) -> (res: Self)
        ensures
            res@ == self@,
    {
        TokenMetadata {
            title: clone_text(&self.title),
            description: clone_text(&self.description),
            media: clone_text(&self.media),
            media_hash: clone_bytes(&self.media_hash),
            copies: self.copies,
            issued_at: self.issued_at,
            expires_at: self.expires_at,
            starts_at: self.starts_at,
            updated_at: self.updated_at,
            extra: clone_text(&self.extra),
            reference: clone_text(&self.reference),
            reference_hash: clone_bytes(&self.reference_hash),
        }
    }
}

/// A token as a caller sees it.
pub struct JsonToken {
    pub token_id: TokenId,
    pub owner_id: AccountId,
    pub metadata: TokenMetadata,
    pub approved_account_ids: StringMap<u64>,
    pub royalty: StringMap<u32>,
}

/// The model of a `JsonToken`.
pub ghost struct JsonTokenView {
    pub token_id: Seq<char>,
    pub owner_id: Seq<char>,
    pub metadata: TokenMetadataView,
    pub approved_account_ids: Seq<(Seq<char>, u64)>,
    pub royalty: Seq<(Seq<char>, u32)>,
}

impl View for JsonToken {
    type V = JsonTokenView;

    open spec fn view(&self) -> JsonTokenView {
        JsonTokenView {
            token_id: self.token_id@,
            owner_id: self.owner_id@,
            metadata: self.metadata@,
            approved_account_ids: self.approved_account_ids.entries(),
            royalty: self.royalty.entries(),
        }
    }
}

impl DeepView for JsonToken {
    type V = JsonTokenView;

    open spec fn deep_view(&self) -> JsonTokenView {
        self@
    }
}

pub trait NftContractMetadata: Consistent {
    /// The description of the contract.
    fn nft_metadata(&self) -> (res: NFTContractMetadata)
        ensures
            res@ == self.ledger().metadata,
    ;
}

impl NftContractMetadata for NftContract {
    fn nft_metadata(&self) -> (res: NFTContractMetadata) {
        self.metadata.clone()
    }
}

/// The token `id` with the record `token` and the description `metadata`, as a
/// caller sees it.
pub open spec fn json_token_of(
    id: Seq<char>,
    token: TokenView,
    metadata: TokenMetadataView,
) -> JsonTokenView {
    JsonTokenView {
        token_id: id,
        owner_id: token.owner_id,
        metadata,
        approved_account_ids: token.approved_account_ids,
        royalty: token.royalty,
    }
}

} // verus!
