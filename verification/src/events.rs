//! The records that the ledger hands out for the event log.

use crate::metadata::clone_text;
use vstd::prelude::*;

verus! {

/// The record of one transfer.
pub struct NftTransferLog {
    /// The account that moved the token, where it was not the owner.
    pub authorized_id: Option<String>,
    pub old_owner_id: String,
    pub new_owner_id: String,
    pub token_ids: Vec<String>,
    pub memo: Option<String>,
}

/// The model of an `NftTransferLog`.
pub ghost struct TransferLogView {
    pub authorized_id: Option<Seq<char>>,
    pub old_owner_id: Seq<char>,
    pub new_owner_id: Seq<char>,
    pub token_ids: Seq<Seq<char>>,
    pub memo: Option<Seq<char>>,
}

impl View for NftTransferLog {
    type V = TransferLogView;

    open spec fn view(&self) -> TransferLogView {
        TransferLogView {
            authorized_id: self.authorized_id.deep_view(),
            old_owner_id: self.old_owner_id@,
            new_owner_id: self.new_owner_id@,
            token_ids: self.token_ids.deep_view(),
            memo: self.memo.deep_view(),
        }
    }
}

/// The record of the transfer of `token_id` from `old_owner` to
/// `new_owner`, on whose behalf `authorized` acted, if anyone did.
pub open spec fn transfer_log(
    authorized: Option<Seq<char>>,
    old_owner: Seq<char>,
    new_owner: Seq<char>,
    token_id: Seq<char>,
    memo: Option<Seq<char>>,
) -> TransferLogView {
    TransferLogView {
        authorized_id: authorized,
        old_owner_id: old_owner,
        new_owner_id: new_owner,
        token_ids: seq![token_id],
        memo,
    }
}

/// The caller of a transfer, where it is not the owner of the token.
pub open spec fn acting_delegate(sender: Seq<char>, owner: Seq<char>) -> Option<Seq<char>> {
    if sender != owner {
        Some(sender)
    } else {
        None
    }
}

impl NftTransferLog {
    /// The record of the transfer of one token.
    pub fn of_transfer(
        authorized_id: Option<String>,
        old_owner_id: &String,
        new_owner_id: &String,
        token_id: &String,
        memo: &Option<String>,
    ) -> (res: NftTransferLog)
        ensures
            res@ == transfer_log(
                authorized_id.deep_view(),
                old_owner_id@,
                new_owner_id@,
                token_id@,
                memo.deep_view(),
            ),
    {
        let mut token_ids: Vec<String> = Vec::new();
        token_ids.push(token_id.clone());
        assert(token_ids.deep_view() =~= seq![token_id@]);
        NftTransferLog {
            authorized_id,
            old_owner_id: old_owner_id.clone(),
            new_owner_id: new_owner_id.clone(),
            token_ids,
            memo: clone_text(memo),
        }
    }
}

/// The record of one mint.
pub struct NftMintLog {
    pub owner_id: String,
    pub token_ids: Vec<String>,
    pub memo: Option<String>,
}

/// The model of an `NftMintLog`.
pub ghost struct MintLogView {
    pub owner_id: Seq<char>,
    pub token_ids: Seq<Seq<char>>,
    pub memo: Option<Seq<char>>,
}

impl View for NftMintLog {
    type V = MintLogView;

    open spec fn view(&self) -> MintLogView {
        MintLogView {
            owner_id: self.owner_id@,
            token_ids: self.token_ids.deep_view(),
            memo: self.memo.deep_view(),
        }
    }
}

/// The record of the mint of `token_id` for `owner`.
pub open spec fn mint_log(owner: Seq<char>, token_id: Seq<char>) -> MintLogView {
    MintLogView { owner_id: owner, token_ids: seq![token_id], memo: None }
}

impl NftMintLog {
    /// The record of the mint of one token.
    pub fn of_mint(owner_id: &String, token_id: &String) -> (res: NftMintLog)
        ensures
            res@ == mint_log(owner_id@, token_id@),
    {
        let mut token_ids: Vec<String> = Vec::new();
        token_ids.push(token_id.clone());
        assert(token_ids.deep_view() =~= seq![token_id@]);
        NftMintLog { owner_id: owner_id.clone(), token_ids, memo: None }
    }
}

} // verus!
