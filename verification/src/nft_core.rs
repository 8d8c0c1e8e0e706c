//! Transfers: the plain one, the one that notifies the receiver and waits
//! for its answer, and the view of a token.

use crate::error::NftError;
use crate::events::{acting_delegate, transfer_log, NftTransferLog};
use crate::internal::{
    assert_one_yocto, keys_of, refund_approved_account_ids, released_cost, Refund, RefundView,
    Transferred,
};
use crate::ledger::{lemma_rollback_keeps_wf, tokens_kept};
use crate::metadata::{
    clone_text, ids_below, json_token_of, AccountId, Balance, JsonToken, Token, TokenId,
};
use crate::promise::PromiseResult;
use crate::string_map::StringMap;
use crate::{CallContext, Consistent, NftContract};
use vstd::prelude::*;

verus! {

/// The gas that the receiver of a transfer gets for its answer.
pub const GAS_FOR_NFT_ON_TRANSFER: u64 = 10_000_000_000_000;

/// The gas that is kept for acting on the receiver's answer.
pub const GAS_FOR_RESOLVE_TRANSFER: u64 = 25_000_000_000_000;

/// Why a call that must come with exactly one yoctoNEAR is refused: for the
/// deposit with `fee_error`, or else for `refusal`.
pub open spec fn fee_then(deposit: u128, fee_error: NftError, refusal: Option<NftError>) -> Option<
    NftError,
> {
    if deposit != 1 {
        Some(fee_error)
    } else {
        refusal
    }
}

/// What a transfer leaves for the host to do.
pub struct TransferReceipt {
    /// The record for the event log.
    pub log: NftTransferLog,
    /// The refund of the storage of the approvals that the transfer dropped.
    pub refund: Refund,
}

/// The notification that the host is to send to the receiver of a token.
pub struct ReceiverCall {
    /// The account that is called.
    pub receiver_id: AccountId,
    /// The gas that the call gets.
    pub gas: u64,
    pub sender_id: AccountId,
    pub previous_owner_id: AccountId,
    pub token_id: TokenId,
    pub msg: String,
}

/// The model of a `ReceiverCall`.
pub ghost struct ReceiverCallView {
    pub receiver_id: Seq<char>,
    pub gas: u64,
    pub sender_id: Seq<char>,
    pub previous_owner_id: Seq<char>,
    pub token_id: Seq<char>,
    pub msg: Seq<char>,
}

impl View for ReceiverCall {
    type V = ReceiverCallView;

    open spec fn view(&self) -> ReceiverCallView {
        ReceiverCallView {
            receiver_id: self.receiver_id@,
            gas: self.gas,
            sender_id: self.sender_id@,
            previous_owner_id: self.previous_owner_id@,
            token_id: self.token_id@,
            msg: self.msg@,
        }
    }
}

/// The call of the contract on itself that the host is to make once the
/// receiver has answered: the arguments of `nft_resolve_transfer`.
pub struct ResolveCall {
    /// The gas that the call gets.
    pub gas: u64,
    pub authorized_id: Option<String>,
    pub owner_id: AccountId,
    pub receiver_id: AccountId,
    pub token_id: TokenId,
    pub approved_account_ids: StringMap<u64>,
    pub memo: Option<String>,
}

/// The model of a `ResolveCall`.
pub ghost struct ResolveCallView {
    pub gas: u64,
    pub authorized_id: Option<Seq<char>>,
    pub owner_id: Seq<char>,
    pub receiver_id: Seq<char>,
    pub token_id: Seq<char>,
    pub approved_account_ids: Seq<(Seq<char>, u64)>,
    pub memo: Option<Seq<char>>,
}

impl View for ResolveCall {
    type V = ResolveCallView;

    open spec fn view(&self) -> ResolveCallView {
        ResolveCallView {
            gas: self.gas,
            authorized_id: self.authorized_id.deep_view(),
            owner_id: self.owner_id@,
            receiver_id: self.receiver_id@,
            token_id: self.token_id@,
            approved_account_ids: self.approved_account_ids.entries(),
            memo: self.memo.deep_view(),
        }
    }
}

/// What a transfer with notification leaves for the host to do.
pub struct TransferCall {
    /// The record for the event log.
    pub log: NftTransferLog,
    /// The notification of the receiver.
    pub on_transfer: ReceiverCall,
    /// The call that follows the receiver's answer.
    pub resolve: ResolveCall,
}

/// What acting on the receiver's answer comes to.
pub struct Resolved {
    /// The token went back to the account that had sent it.
    pub returned: bool,
    /// The record for the event log.
    pub log: NftTransferLog,
    /// The refund, where the token went back.
    pub refund: Option<Refund>,
}

pub trait NftCore: Consistent {
    /// Moves `token_id` to `receiver_id` for the caller.
    ///
    /// The call comes with exactly one yoctoNEAR, else it is refused with
    /// `PaymentExact`; after that it is refused as `internal_transfer` is.
    /// The owner that the token had is refunded the storage of the approvals
    /// that the transfer dropped.
    fn nft_transfer(
        &mut self,
        context: &CallContext,
        receiver_id: AccountId,
        token_id: TokenId,
        approval_id: Option<u64>,
        memo: Option<String>,
    ) -> (res: Result<TransferReceipt, NftError>)
        requires
            old(self).consistent(),
        ensures
            final(self).consistent(),
            tokens_kept(old(self).ledger(), final(self).ledger()),
            match res {
                Ok(done) => {
                    let token = old(self).ledger().tokens_by_id[token_id@];
                    &&& fee_then(
                        context.attached_deposit,
                        NftError::PaymentExact,
                        old(self).ledger().transfer_refusal(
                            context.predecessor_account_id@,
                            receiver_id@,
                            token_id@,
                            approval_id,
                        ),
                    ) is None
                    &&& final(self).ledger() == old(self).ledger().after_transfer(receiver_id@, token_id@)
                    &&& final(self).ledger().tokens_by_id[token_id@].owner_id == receiver_id@
                    &&& final(self).ledger().tokens_by_id[token_id@].approved_account_ids.len() == 0
                    &&& done.log@ == transfer_log(
                        acting_delegate(context.predecessor_account_id@, token.owner_id),
                        token.owner_id,
                        receiver_id@,
                        token_id@,
                        memo.deep_view(),
                    )
                    &&& done.refund@ == (RefundView {
                        account_id: token.owner_id,
                        amount: released_cost(
                            keys_of(token.approved_account_ids),
                            context.storage_byte_cost,
                        ) as u128,
                    })
                },
                Err(e) => {
                    &&& fee_then(
                        context.attached_deposit,
                        NftError::PaymentExact,
                        old(self).ledger().transfer_refusal(
                            context.predecessor_account_id@,
                            receiver_id@,
                            token_id@,
                            approval_id,
                        ),
                    ) == Some(e)
                    &&& *final(self) == *old(self)
                },
            },
    ;

    /// Moves `token_id` to `receiver_id` for the caller, and says how the
    /// receiver is to be told and what is to follow its answer.
    ///
    /// The call comes with exactly one yoctoNEAR, else it is refused with
    /// `FeeRequired`; after that it is refused as `internal_transfer` is.
    /// The token changes hands at once. The host is to notify the receiver,
    /// and to call `nft_resolve_transfer` with the receiver's answer and the
    /// arguments given here: the owner and the approvals that the token had.
    fn nft_transfer_call(
        &mut self,
        context: &CallContext,
        receiver_id: AccountId,
        token_id: TokenId,
        approval_id: Option<u64>,
        memo: Option<String>,
        msg: String,
    ) -> (res: Result<TransferCall, NftError>)
        requires
            old(self).consistent(),
        ensures
            final(self).consistent(),
            tokens_kept(old(self).ledger(), final(self).ledger()),
            match res {
                Ok(plan) => {
                    let token = old(self).ledger().tokens_by_id[token_id@];
                    let sender = context.predecessor_account_id@;
                    &&& fee_then(
                        context.attached_deposit,
                        NftError::FeeRequired,
                        old(self).ledger().transfer_refusal(sender, receiver_id@, token_id@, approval_id),
                    ) is None
                    &&& final(self).ledger() == old(self).ledger().after_transfer(receiver_id@, token_id@)
                    &&& final(self).ledger().tokens_by_id[token_id@].owner_id == receiver_id@
                    &&& final(self).ledger().tokens_by_id[token_id@].approved_account_ids.len() == 0
                    &&& plan.log@ == transfer_log(
                        acting_delegate(sender, token.owner_id),
                        token.owner_id,
                        receiver_id@,
                        token_id@,
                        memo.deep_view(),
                    )
                    &&& plan.on_transfer@ == (ReceiverCallView {
                        receiver_id: receiver_id@,
                        gas: GAS_FOR_NFT_ON_TRANSFER,
                        sender_id: sender,
                        previous_owner_id: token.owner_id,
                        token_id: token_id@,
                        msg: msg@,
                    })
                    &&& plan.resolve@ == (ResolveCallView {
                        gas: GAS_FOR_RESOLVE_TRANSFER,
                        authorized_id: acting_delegate(sender, token.owner_id),
                        owner_id: token.owner_id,
                        receiver_id: receiver_id@,
                        token_id: token_id@,
                        approved_account_ids: token.approved_account_ids,
                        memo: memo.deep_view(),
                    })
                    &&& plan.resolve.approved_account_ids.wf()
                },
                Err(e) => {
                    &&& fee_then(
                        context.attached_deposit,
                        NftError::FeeRequired,
                        old(self).ledger().transfer_refusal(
                            context.predecessor_account_id@,
                            receiver_id@,
                            token_id@,
                            approval_id,
                        ),
                    ) == Some(e)
                    &&& *final(self) == *old(self)
                },
            },
    ;

    /// The token `token_id` as a caller sees it.
    ///
    /// The token with its owner, its description, its approvals and its
    /// royalty, where there is such a token.
    fn nft_token(&self, token_id: TokenId) -> (res: Option<JsonToken>)
        requires
            self.consistent(),
        ensures
            res is Some <==> self.ledger().tokens_by_id.contains_key(token_id@),
            res is Some ==> res->0@ == json_token_of(
                token_id@,
                self.ledger().tokens_by_id[token_id@],
                self.ledger().token_metadata_by_id[token_id@],
            ),
    ;
}

impl NftCore for NftContract {
    fn nft_transfer(
        &mut self,
        context: &CallContext,
        receiver_id: AccountId,
        token_id: TokenId,
        approval_id: Option<u64>,
        memo: Option<String>,
    ) -> (res: Result<TransferReceipt, NftError>) {
        match assert_one_yocto(context.attached_deposit) {
            Ok(()) => {},
            Err(e) => {
                return Err(e);
            },
        }
        let done = match self.internal_transfer(
            &context.predecessor_account_id,
            &receiver_id,
            &token_id,
            approval_id,
            memo,
        ) {
            Ok(done) => done,
            Err(e) => {
                return Err(e);
            },
        };
        let Transferred { previous_token, log } = done;
        let refund = refund_approved_account_ids(
            previous_token.owner_id,
            &previous_token.approved_account_ids,
            context.storage_byte_cost,
        );
        Ok(TransferReceipt { log, refund })
    }

    fn nft_transfer_call(
        &mut self,
        context: &CallContext,
        receiver_id: AccountId,
        token_id: TokenId,
        approval_id: Option<u64>,
        memo: Option<String>,
        msg: String,
    ) -> (res: Result<TransferCall, NftError>) {
        match assert_one_yocto(context.attached_deposit) {
            Ok(()) => {},
            Err(_) => {
                return Err(NftError::FeeRequired);
            },
        }
        let sender_id = context.predecessor_account_id.clone();
        let resolve_memo = clone_text(&memo);
        let done = match self.internal_transfer(
            &sender_id,
            &receiver_id,
            &token_id,
            approval_id,
            memo,
        ) {
            Ok(done) => done,
            Err(e) => {
                return Err(e);
            },
        };
        let Transferred { previous_token, log } = done;
        let authorized_id = if !(sender_id == previous_token.owner_id) {
            Some(sender_id.clone())
        } else {
            None
        };
        let on_transfer = ReceiverCall {
            receiver_id: receiver_id.clone(),
            gas: GAS_FOR_NFT_ON_TRANSFER,
            sender_id,
            previous_owner_id: previous_token.owner_id.clone(),
            token_id: token_id.clone(),
            msg,
        };
        let resolve = ResolveCall {
            gas: GAS_FOR_RESOLVE_TRANSFER,
            authorized_id,
            owner_id: previous_token.owner_id,
            receiver_id,
            token_id,
            approved_account_ids: previous_token.approved_account_ids,
            memo: resolve_memo,
        };
        Ok(TransferCall { log, on_transfer, resolve })
    }

    fn nft_token(&self, token_id: TokenId) -> (res: Option<JsonToken>) {
        match self.tokens_by_id.get(&token_id) {
            None => None,
            Some(token) => match self.token_metadata_by_id.get(&token_id) {
                None => None,
                Some(metadata) => Some(
                    JsonToken {
                        owner_id: token.owner_id.clone(),
                        metadata: metadata.clone(),
                        approved_account_ids: token.approved_account_ids.clone(),
                        royalty: token.royalty.clone(),
                        token_id,
                    },
                ),
            },
        }
    }
}

impl NftContract {
    /// Acts on the answer of the receiver of a transfer with notification.
    ///
    /// `results` are the results that the continuation finds: there must be
    /// exactly one, else the call is refused with `ProtocolViolation`. The
    /// other arguments are those that `nft_transfer_call` handed out.
    ///
    /// Where the receiver failed, or answered `true`, and still owns the
    /// token, the token goes back to `owner_id` with the approvals
    /// `approved_account_ids`; the host is to log the transfer back and to
    /// refund the owner the storage of these approvals. The call is refused
    /// with `InconsistentState`, and nothing changes, where one of these
    /// approvals has an id that the token has not handed out.
    ///
    /// In every other case the transfer stands, nothing changes, and the
    /// host is to log the transfer as it was made.
    pub fn nft_resolve_transfer(
        &mut self,
        results: &Vec<PromiseResult>,
        storage_byte_cost: Balance,
        authorized_id: Option<String>,
        owner_id: AccountId,
        receiver_id: AccountId,
        token_id: TokenId,
        approved_account_ids: StringMap<u64>,
        memo: Option<String>,
    ) -> (res: Result<Resolved, NftError>)
        requires
            old(self).wf(),
            approved_account_ids.wf(),
        ensures
            final(self).wf(),
            tokens_kept(old(self)@, final(self)@),
            match res {
                Ok(done) => {
                    let approvals = approved_account_ids.entries();
                    &&& old(self)@.resolve_refusal(
                        results.deep_view(),
                        receiver_id@,
                        token_id@,
                        approvals,
                    ) is None
                    &&& final(self)@ == old(self)@.after_resolve(
                        results.deep_view(),
                        owner_id@,
                        receiver_id@,
                        token_id@,
                        approvals,
                    )
                    &&& done.returned == old(self)@.rollback_due(
                        results.deep_view(),
                        receiver_id@,
                        token_id@,
                    )
                    &&& done.returned ==> {
                        &&& done.log@ == transfer_log(
                            authorized_id.deep_view(),
                            receiver_id@,
                            owner_id@,
                            token_id@,
                            memo.deep_view(),
                        )
                        &&& done.refund.deep_view() == Some(
                            RefundView {
                                account_id: owner_id@,
                                amount: released_cost(keys_of(approvals), storage_byte_cost) as u128,
                            },
                        )
                    }
                    &&& !done.returned ==> {
                        &&& *final(self) == *old(self)
                        &&& done.log@ == transfer_log(
                            authorized_id.deep_view(),
                            owner_id@,
                            receiver_id@,
                            token_id@,
                            memo.deep_view(),
                        )
                        &&& done.refund is None
                    }
                },
                Err(e) => {
                    &&& old(self)@.resolve_refusal(
                        results.deep_view(),
                        receiver_id@,
                        token_id@,
                        approved_account_ids.entries(),
                    ) == Some(e)
                    &&& *final(self) == *old(self)
                },
            },
    {
        let ghost before = self@;
        if results.len() != 1 {
            return Err(NftError::ProtocolViolation);
        }
        assert(results.deep_view()[0] == results[0].deep_view());
        let wanted = results[0].asks_return();
        let held = if wanted {
            match self.tokens_by_id.get(&token_id) {
                Some(token) => {
                    if token.owner_id == receiver_id {
                        Some((token.next_approval_id, token.royalty.clone()))
                    } else {
                        None
                    }
                },
                None => None,
            }
        } else {
            None
        };
        match held {
            None => {
                let log = NftTransferLog::of_transfer(
                    authorized_id,
                    &owner_id,
                    &receiver_id,
                    &token_id,
                    &memo,
                );
                Ok(Resolved { returned: false, log, refund: None })
            },
            Some((next_approval_id, royalty)) => {
                if !ids_below(&approved_account_ids, next_approval_id) {
                    return Err(NftError::InconsistentState);
                }
                proof {
                    lemma_rollback_keeps_wf(
                        before,
                        results.deep_view(),
                        owner_id@,
                        receiver_id@,
                        token_id@,
                        approved_account_ids.entries(),
                    );
                }
                let refund = refund_approved_account_ids(
                    owner_id.clone(),
                    &approved_account_ids,
                    storage_byte_cost,
                );
                match self.internal_remove_token_from_owner(&receiver_id, &token_id) {
                    Ok(()) => {},
                    Err(e) => {
                        return Err(e);
                    },
                }
                self.internal_add_token_to_owner(&owner_id, &token_id);
                let restored = Token {
                    owner_id: owner_id.clone(),
                    approved_account_ids,
                    next_approval_id,
                    royalty,
                };
                self.tokens_by_id.insert(token_id.clone(), restored);
                assert(self@ == before.after_rollback(
                    owner_id@,
                    receiver_id@,
                    token_id@,
                    approved_account_ids.entries(),
                ));
                let log = NftTransferLog::of_transfer(
                    authorized_id,
                    &receiver_id,
                    &owner_id,
                    &token_id,
                    &memo,
                );
                Ok(Resolved { returned: true, log, refund: Some(refund) })
            },
        }
    }
}

} // verus!
