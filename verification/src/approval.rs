//! Approvals: the right, given by the owner of a token, to transfer it.

use crate::error::NftError;
use crate::internal::{
    assert_at_least_one_yocto, assert_one_yocto, bytes_for_approved_account_id, excess_refund,
    keys_of, refund_approved_account_ids, refund_approved_account_ids_iter, refund_deposit,
    released_cost, Refund, RefundView,
};
use crate::ledger::{
    approval_growth, lemma_approve_keeps_wf, lemma_revoke_all_keeps_wf, lemma_revoke_keeps_wf,
    tokens_kept,
};
use crate::metadata::{AccountId, Balance, TokenId};
use crate::nft_core::fee_then;
use crate::string_map::{has_key, lookup};
use crate::{CallContext, Consistent, NftContract};
use vstd::prelude::*;

verus! {

/// The notification of an approval that the host is to send, without
/// waiting for an answer.
pub struct ApprovalCall {
    /// The account that is called: the one that was approved.
    pub receiver_id: AccountId,
    pub token_id: TokenId,
    pub owner_id: AccountId,
    pub approval_id: u64,
    pub msg: String,
}

/// The model of an `ApprovalCall`.
pub ghost struct ApprovalCallView {
    pub receiver_id: Seq<char>,
    pub token_id: Seq<char>,
    pub owner_id: Seq<char>,
    pub approval_id: u64,
    pub msg: Seq<char>,
}

impl View for ApprovalCall {
    type V = ApprovalCallView;

    open spec fn view(&self) -> ApprovalCallView {
        ApprovalCallView {
            receiver_id: self.receiver_id@,
            token_id: self.token_id@,
            owner_id: self.owner_id@,
            approval_id: self.approval_id,
            msg: self.msg@,
        }
    }
}

impl DeepView for ApprovalCall {
    type V = ApprovalCallView;

    open spec fn deep_view(&self) -> ApprovalCallView {
        self@
    }
}

/// What an approval leaves for the host to do.
pub struct Approved {
    /// The id of the approval.
    pub approval_id: u64,
    /// What is to be paid back to the caller of its deposit.
    pub refund: Option<Balance>,
    /// The notification of the approved account, where one was asked for.
    pub on_approve: Option<ApprovalCall>,
}

/// The notification that goes with an approval, where `msg` asks for one.
pub open spec fn approval_notice(
    msg: Option<Seq<char>>,
    token_id: Seq<char>,
    owner: Seq<char>,
    grantee: Seq<char>,
    approval_id: u64,
) -> Option<ApprovalCallView> {
    match msg {
        Some(text) => Some(
            ApprovalCallView {
                receiver_id: grantee,
                token_id,
                owner_id: owner,
                approval_id,
                msg: text,
            },
        ),
        None => None,
    }
}

/// Whether an account with the approval `held` is approved, where the
/// caller asks for the id `wanted`, or for any.
pub open spec fn approval_matches(held: Option<u64>, wanted: Option<u64>) -> bool {
    match held {
        Some(actual) => wanted is None || wanted == Some(actual),
        None => false,
    }
}

pub trait NftApproval: Consistent {
    /// Approves `account_id` to transfer `token_id`.
    ///
    /// The caller owns the token and pays for the storage of the approval,
    /// at least one yoctoNEAR. The account gets the approval id that is
    /// next, in place of the one it had, if it had one, and the counter goes
    /// up by one. What the deposit exceeds the price of the storage by goes
    /// back to the caller. With a `msg`, the approved account is notified.
    fn nft_approve(
        &mut self,
        context: &CallContext,
        token_id: TokenId,
        account_id: AccountId,
        msg: Option<String>,
    ) -> (res: Result<Approved, NftError>)
        requires
            old(self).consistent(),
        ensures
            final(self).consistent(),
            tokens_kept(old(self).ledger(), final(self).ledger()),
            match res {
                Ok(done) => {
                    let token = old(self).ledger().tokens_by_id[token_id@];
                    &&& old(self).ledger().approve_refusal(
                        context.predecessor_account_id@,
                        context.attached_deposit,
                        context.storage_byte_cost,
                        token_id@,
                        account_id@,
                    ) is None
                    &&& final(self).ledger() == old(self).ledger().after_approve(token_id@, account_id@)
                    &&& done.approval_id == token.next_approval_id
                    &&& final(self).ledger().tokens_by_id[token_id@].next_approval_id == done.approval_id
                        + 1
                    &&& lookup(
                        final(self).ledger().tokens_by_id[token_id@].approved_account_ids,
                        account_id@,
                    ) == Some(done.approval_id)
                    &&& done.refund == excess_refund(
                        context.attached_deposit - context.storage_byte_cost * approval_growth(
                            token,
                            account_id@,
                        ),
                    )
                    &&& done.on_approve.deep_view() == approval_notice(
                        msg.deep_view(),
                        token_id@,
                        token.owner_id,
                        account_id@,
                        done.approval_id,
                    )
                },
                Err(e) => {
                    &&& old(self).ledger().approve_refusal(
                        context.predecessor_account_id@,
                        context.attached_deposit,
                        context.storage_byte_cost,
                        token_id@,
                        account_id@,
                    ) == Some(e)
                    &&& *final(self) == *old(self)
                },
            },
    ;

    /// Whether `approved_account_id` is approved for `token_id`.
    ///
    /// A token that does not exist is an error. An account is approved if it
    /// holds an approval and, where `approval_id` is given, this is its id.
    fn nft_is_approved(
        &self,
        token_id: TokenId,
        approved_account_id: AccountId,
        approval_id: Option<u64>,
    ) -> (res: Result<bool, NftError>)
        requires
            self.consistent(),
        ensures
            match res {
                Ok(approved) => self.ledger().tokens_by_id.contains_key(token_id@) && approved
                    == approval_matches(
                    lookup(
                        self.ledger().tokens_by_id[token_id@].approved_account_ids,
                        approved_account_id@,
                    ),
                    approval_id,
                ),
                Err(e) => e == NftError::NotFound && !self.ledger().tokens_by_id.contains_key(token_id@),
            },
    ;

    /// Takes the approval of `account_id` for `token_id` back.
    ///
    /// The call comes with exactly one yoctoNEAR, from the owner of the
    /// token. Where the account was approved, its approval is dropped and
    /// the owner is refunded the storage that it took; where it was not,
    /// nothing changes and nothing is refunded.
    fn nft_revoke(&mut self, context: &CallContext, token_id: TokenId, account_id: AccountId) -> (res:
        Result<Option<Refund>, NftError>)
        requires
            old(self).consistent(),
        ensures
            final(self).consistent(),
            tokens_kept(old(self).ledger(), final(self).ledger()),
            match res {
                Ok(refund) => {
                    let token = old(self).ledger().tokens_by_id[token_id@];
                    &&& fee_then(
                        context.attached_deposit,
                        NftError::PaymentExact,
                        old(self).ledger().owner_refusal(context.predecessor_account_id@, token_id@),
                    ) is None
                    &&& final(self).ledger() == old(self).ledger().after_revoke(token_id@, account_id@)
                    &&& !has_key(
                        final(self).ledger().tokens_by_id[token_id@].approved_account_ids,
                        account_id@,
                    )
                    &&& refund.deep_view() == if has_key(token.approved_account_ids, account_id@) {
                        Some(
                            RefundView {
                                account_id: token.owner_id,
                                amount: released_cost(
                                    seq![account_id@],
                                    context.storage_byte_cost,
                                ) as u128,
                            },
                        )
                    } else {
                        None
                    }
                    &&& refund is None ==> *final(self) == *old(self)
                },
                Err(e) => {
                    &&& fee_then(
                        context.attached_deposit,
                        NftError::PaymentExact,
                        old(self).ledger().owner_refusal(context.predecessor_account_id@, token_id@),
                    ) == Some(e)
                    &&& *final(self) == *old(self)
                },
            },
    ;

    /// Takes every approval for `token_id` back.
    ///
    /// The call comes with exactly one yoctoNEAR, from the owner of the
    /// token. Where the token had approvals, they are dropped and the owner
    /// is refunded the storage that they took; where it had none, nothing
    /// changes and nothing is refunded.
    fn nft_revoke_all_accounts(&mut self, context: &CallContext, token_id: TokenId) -> (res: Result<
        Option<Refund>,
        NftError,
    >)
        requires
            old(self).consistent(),
        ensures
            final(self).consistent(),
            tokens_kept(old(self).ledger(), final(self).ledger()),
            match res {
                Ok(refund) => {
                    let token = old(self).ledger().tokens_by_id[token_id@];
                    &&& fee_then(
                        context.attached_deposit,
                        NftError::PaymentExact,
                        old(self).ledger().owner_refusal(context.predecessor_account_id@, token_id@),
                    ) is None
                    &&& final(self).ledger() == old(self).ledger().after_revoke_all(token_id@)
                    &&& final(self).ledger().tokens_by_id[token_id@].approved_account_ids.len() == 0
                    &&& refund.deep_view() == if token.approved_account_ids.len() > 0 {
                        Some(
                            RefundView {
                                account_id: token.owner_id,
                                amount: released_cost(
                                    keys_of(token.approved_account_ids),
                                    context.storage_byte_cost,
                                ) as u128,
                            },
                        )
                    } else {
                        None
                    }
                    &&& refund is None ==> *final(self) == *old(self)
                },
                Err(e) => {
                    &&& fee_then(
                        context.attached_deposit,
                        NftError::PaymentExact,
                        old(self).ledger().owner_refusal(context.predecessor_account_id@, token_id@),
                    ) == Some(e)
                    &&& *final(self) == *old(self)
                },
            },
    ;
}

impl NftApproval for NftContract {
    fn nft_approve(
        &mut self,
        context: &CallContext,
        token_id: TokenId,
        account_id: AccountId,
        msg: Option<String>,
    ) -> (res: Result<Approved, NftError>) {
        let ghost before = self@;
        match assert_at_least_one_yocto(context.attached_deposit) {
            Ok(()) => {},
            Err(e) => {
                return Err(e);
            },
        }
        let (approval_id, storage_used) = match self.tokens_by_id.get(&token_id) {
            None => {
                return Err(NftError::NotFound);
            },
            Some(token) => {
                if !(context.predecessor_account_id == token.owner_id) {
                    return Err(NftError::NotOwner);
                }
                if token.next_approval_id == u64::MAX {
                    return Err(NftError::ApprovalIdsExhausted);
                }
                let is_new_approval = !token.approved_account_ids.contains_key(&account_id);
                let storage_used = if is_new_approval {
                    bytes_for_approved_account_id(&account_id)
                } else {
                    0
                };
                (token.next_approval_id, storage_used)
            },
        };
        let refund = match refund_deposit(
            storage_used,
            context.attached_deposit,
            context.storage_byte_cost,
        ) {
            Ok(refund) => refund,
            Err(e) => {
                return Err(e);
            },
        };
        proof {
            lemma_approve_keeps_wf(before, token_id@, account_id@);
            crate::string_map::lemma_put(
                before.tokens_by_id[token_id@].approved_account_ids,
                account_id@,
                approval_id,
            );
        }
        let mut token = self.tokens_by_id.remove(&token_id).unwrap();
        token.approved_account_ids.insert(account_id.clone(), approval_id);
        token.next_approval_id = approval_id + 1;
        let on_approve = match msg {
            Some(text) => Some(
                ApprovalCall {
                    receiver_id: account_id,
                    token_id: token_id.clone(),
                    owner_id: token.owner_id.clone(),
                    approval_id,
                    msg: text,
                },
            ),
            None => None,
        };
        self.tokens_by_id.insert(token_id, token);
        assert(self@.tokens_by_id =~= before.after_approve(token_id@, account_id@).tokens_by_id);
        Ok(Approved { approval_id, refund, on_approve })
    }

    fn nft_is_approved(
        &self,
        token_id: TokenId,
        approved_account_id: AccountId,
        approval_id: Option<u64>,
    ) -> (res: Result<bool, NftError>) {
        match self.tokens_by_id.get(&token_id) {
            None => Err(NftError::NotFound),
            Some(token) => {
                assert(self@.tokens_by_id.contains_key(token_id@));
                assert(token@ == self@.tokens_by_id[token_id@]);
                match token.approved_account_ids.get(&approved_account_id) {
                    Some(actual_approval_id) => match approval_id {
                        Some(given_approval_id) => Ok(*actual_approval_id == given_approval_id),
                        None => Ok(true),
                    },
                    None => Ok(false),
                }
            },
        }
    }

    fn nft_revoke(&mut self, context: &CallContext, token_id: TokenId, account_id: AccountId) -> (res:
        Result<Option<Refund>, NftError>) {
        let ghost before = self@;
        match assert_one_yocto(context.attached_deposit) {
            Ok(()) => {},
            Err(e) => {
                return Err(e);
            },
        }
        let approved = match self.tokens_by_id.get(&token_id) {
            None => {
                return Err(NftError::NotFound);
            },
            Some(token) => {
                if !(context.predecessor_account_id == token.owner_id) {
                    return Err(NftError::NotOwner);
                }
                token.approved_account_ids.contains_key(&account_id)
            },
        };
        proof {
            lemma_revoke_keeps_wf(before, token_id@, account_id@);
            crate::string_map::lemma_without(
                before.tokens_by_id[token_id@].approved_account_ids,
                account_id@,
            );
        }
        if !approved {
            return Ok(None);
        }
        let mut token = self.tokens_by_id.remove(&token_id).unwrap();
        token.approved_account_ids.remove(&account_id);
        self.tokens_by_id.insert(token_id, token);
        assert(self@.tokens_by_id =~= before.after_revoke(token_id@, account_id@).tokens_by_id);
        let mut revoked: Vec<AccountId> = Vec::new();
        revoked.push(account_id);
        assert(revoked.deep_view() =~= seq![account_id@]);
        let refund = refund_approved_account_ids_iter(
            context.predecessor_account_id.clone(),
            &revoked,
            context.storage_byte_cost,
        );
        Ok(Some(refund))
    }

    fn nft_revoke_all_accounts(&mut self, context: &CallContext, token_id: TokenId) -> (res: Result<
        Option<Refund>,
        NftError,
    >) {
        let ghost before = self@;
        match assert_one_yocto(context.attached_deposit) {
            Ok(()) => {},
            Err(e) => {
                return Err(e);
            },
        }
        let any = match self.tokens_by_id.get(&token_id) {
            None => {
                return Err(NftError::NotFound);
            },
            Some(token) => {
                if !(context.predecessor_account_id == token.owner_id) {
                    return Err(NftError::NotOwner);
                }
                !token.approved_account_ids.is_empty()
            },
        };
        proof {
            lemma_revoke_all_keeps_wf(before, token_id@);
        }
        if !any {
            return Ok(None);
        }
        let mut token = self.tokens_by_id.remove(&token_id).unwrap();
        let refund = refund_approved_account_ids(
            context.predecessor_account_id.clone(),
            &token.approved_account_ids,
            context.storage_byte_cost,
        );
        token.approved_account_ids.clear();
        self.tokens_by_id.insert(token_id, token);
        assert(self@.tokens_by_id =~= before.after_revoke_all(token_id@).tokens_by_id);
        Ok(Some(refund))
    }
}

} // verus!
