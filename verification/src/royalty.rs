//! Royalties: how the proceeds of a sale are split.

use crate::error::NftError;
use crate::events::{acting_delegate, transfer_log, NftTransferLog};
use crate::internal::{
    assert_one_yocto, keys_of, lemma_share_split, refund_approved_account_ids, released_cost,
    royalty_to_payout, share_of, Refund, RefundView, Transferred,
};
use crate::ledger::tokens_kept;
use crate::metadata::{royalty_total, AccountId, Payout, TokenId, ROYALTY_WHOLE};
use crate::nft_core::fee_then;
use crate::string_map::{distinct_keys, has_key, StringMap};
use crate::{CallContext, Consistent, NftContract};
use vstd::prelude::*;

verus! {

/// The sum of the shares of `royalty` that go to others than `owner`.
pub open spec fn perpetual_total(royalty: Seq<(Seq<char>, u32)>, owner: Seq<char>) -> nat
    decreases royalty.len(),
{
    if royalty.len() == 0 {
        0
    } else if royalty.last().0 != owner {
        perpetual_total(royalty.drop_last(), owner) + royalty.last().1 as nat
    } else {
        perpetual_total(royalty.drop_last(), owner)
    }
}

/// What `amount` pays to each account of `royalty` other than `owner`, in
/// the order of `royalty`: its share, rounded down.
pub open spec fn perpetual_payouts(
    royalty: Seq<(Seq<char>, u32)>,
    owner: Seq<char>,
    amount: u128,
) -> Seq<(Seq<char>, u128)>
    decreases royalty.len(),
{
    if royalty.len() == 0 {
        Seq::empty()
    } else if royalty.last().0 != owner {
        perpetual_payouts(royalty.drop_last(), owner, amount).push(
            (royalty.last().0, share_of(royalty.last().1 as int, amount as int) as u128),
        )
    } else {
        perpetual_payouts(royalty.drop_last(), owner, amount)
    }
}

/// What `amount` pays to each account: to the others their shares, and last
/// to `owner` the share that the others leave of the whole, rounded down.
/// The owner's share is worked out once, from what is left of the ten
/// thousand parts, and not as a sum.
pub open spec fn payout_entries(
    royalty: Seq<(Seq<char>, u32)>,
    owner: Seq<char>,
    amount: u128,
) -> Seq<(Seq<char>, u128)> {
    perpetual_payouts(royalty, owner, amount).push(
        (owner, share_of(ROYALTY_WHOLE - perpetual_total(royalty, owner), amount as int) as u128),
    )
}

/// The sum of the amounts of `payout`.
pub open spec fn payout_total(payout: Seq<(Seq<char>, u128)>) -> nat
    decreases payout.len(),
{
    if payout.len() == 0 {
        0
    } else {
        payout_total(payout.drop_last()) + payout.last().1 as nat
    }
}

/// No share of `royalty` that goes to another than `owner` is rounded:
/// each divides `amount` into whole yoctoNEAR.
pub open spec fn shares_exact(royalty: Seq<(Seq<char>, u32)>, owner: Seq<char>, amount: u128) -> bool {
    forall|i: int|
        0 <= i < royalty.len() && (#[trigger] royalty[i]).0 != owner ==> (royalty[i].1 * amount)
            % (ROYALTY_WHOLE as int) == 0
}

/// Why the payout of `token_id` to at most `max_len_payout` accounts is
/// refused, if anything stands against it.
pub open spec fn payout_refusal(
    tokens: Map<Seq<char>, crate::metadata::TokenView>,
    token_id: Seq<char>,
    max_len_payout: u32,
) -> Option<NftError> {
    if !tokens.contains_key(token_id) {
        Some(NftError::NotFound)
    } else if tokens[token_id].royalty.len() > max_len_payout {
        Some(NftError::TooManyRecipients)
    } else {
        None
    }
}

/// The shares that go to others than the owner do not exceed all shares.
pub proof fn lemma_perpetual_total_bound(royalty: Seq<(Seq<char>, u32)>, owner: Seq<char>)
    ensures
        perpetual_total(royalty, owner) <= royalty_total(royalty),
    decreases royalty.len(),
{
    if royalty.len() > 0 {
        lemma_perpetual_total_bound(royalty.drop_last(), owner);
    }
}

/// The payouts to others than the owner: one for each such account of the
/// royalty, under its name; none under the owner's name; none twice where
/// the royalty names none twice.
pub proof fn lemma_perpetual_payouts_keys(
    royalty: Seq<(Seq<char>, u32)>,
    owner: Seq<char>,
    amount: u128,
)
    ensures
        perpetual_payouts(royalty, owner, amount).len() <= royalty.len(),
        !has_key(perpetual_payouts(royalty, owner, amount), owner),
        forall|k: Seq<char>| #[trigger]
            has_key(perpetual_payouts(royalty, owner, amount), k) ==> has_key(royalty, k),
        distinct_keys(royalty) ==> distinct_keys(perpetual_payouts(royalty, owner, amount)),
    decreases royalty.len(),
{
    let out = perpetual_payouts(royalty, owner, amount);
    if royalty.len() > 0 {
        let rest = royalty.drop_last();
        let rest_out = perpetual_payouts(rest, owner, amount);
        lemma_perpetual_payouts_keys(rest, owner, amount);
        assert forall|k: Seq<char>| #[trigger] has_key(out, k) implies has_key(royalty, k) by {
            let i = choose|i: int| 0 <= i < out.len() && (#[trigger] out[i]).0 == k;
            if i < rest_out.len() {
                assert(rest_out[i].0 == k);
                assert(has_key(rest_out, k));
                let j = choose|j: int| 0 <= j < rest.len() && (#[trigger] rest[j]).0 == k;
                assert(royalty[j].0 == k);
            } else {
                assert(royalty[royalty.len() - 1].0 == k);
            }
        }
        assert(!has_key(out, owner)) by {
            if has_key(out, owner) {
                let i = choose|i: int| 0 <= i < out.len() && (#[trigger] out[i]).0 == owner;
                if i < rest_out.len() {
                    assert(rest_out[i].0 == owner);
                }
            }
        }
        if distinct_keys(royalty) {
            assert(distinct_keys(rest)) by {
                assert forall|i: int, j: int| 0 <= i < j < rest.len() implies (#[trigger] rest[i]).0
                    != (#[trigger] rest[j]).0 by {
                    assert(royalty[i].0 != royalty[j].0);
                }
            }
            assert forall|i: int, j: int| 0 <= i < j < out.len() implies (#[trigger] out[i]).0 != (
            #[trigger] out[j]).0 by {
                if j < rest_out.len() {
                    assert(rest_out[i].0 != rest_out[j].0);
                } else {
                    assert(rest_out[i].0 == out[i].0);
                    assert(has_key(rest_out, out[i].0));
                    let m = choose|m: int|
                        0 <= m < rest.len() && (#[trigger] rest[m]).0 == out[i].0;
                    assert(royalty[m].0 != royalty[royalty.len() - 1].0);
                }
            }
        }
    }
}

/// Two shares, each rounded down, do not exceed the share of the two
/// together; they come to it where the first is not rounded.
pub proof fn lemma_share_sum(p: int, q: int, amount: int)
    requires
        0 <= p,
        0 <= q,
        0 <= amount,
    ensures
        share_of(p, amount) + share_of(q, amount) <= share_of(p + q, amount),
        (p * amount) % 10_000 == 0 ==> share_of(p, amount) + share_of(q, amount) == share_of(
            p + q,
            amount,
        ),
        (p * amount) % 10_000 == 0 && (q * amount) % 10_000 == 0 ==> ((p + q) * amount) % 10_000
            == 0,
{
    let x = p * amount;
    let y = q * amount;
    assert(0 <= x && 0 <= y) by (nonlinear_arith)
        requires
            0 <= p,
            0 <= q,
            0 <= amount,
            x == p * amount,
            y == q * amount,
    ;
    assert((p + q) * amount == x + y) by (nonlinear_arith)
        requires
            x == p * amount,
            y == q * amount,
    ;
    assert(x / 10_000 + y / 10_000 <= (x + y) / 10_000 && (x % 10_000 == 0 ==> x / 10_000 + y
        / 10_000 == (x + y) / 10_000) && (x % 10_000 == 0 && y % 10_000 == 0 ==> (x + y) % 10_000
        == 0)) by (nonlinear_arith)
        requires
            0 <= x,
            0 <= y,
    ;
}

/// What goes to others than the owner does not exceed the share of their
/// parts together, and comes to it where no share is rounded.
pub proof fn lemma_perpetual_payouts_total(
    royalty: Seq<(Seq<char>, u32)>,
    owner: Seq<char>,
    amount: u128,
)
    requires
        royalty_total(royalty) <= ROYALTY_WHOLE,
    ensures
        payout_total(perpetual_payouts(royalty, owner, amount)) <= share_of(
            perpetual_total(royalty, owner) as int,
            amount as int,
        ),
        shares_exact(royalty, owner, amount) ==> payout_total(
            perpetual_payouts(royalty, owner, amount),
        ) == share_of(perpetual_total(royalty, owner) as int, amount as int) && (perpetual_total(
            royalty,
            owner,
        ) * amount) % 10_000 == 0,
    decreases royalty.len(),
{
    let out = perpetual_payouts(royalty, owner, amount);
    if royalty.len() == 0 {
        assert(share_of(0, amount as int) == 0);
        assert((0 * amount) % 10_000 == 0);
    } else {
        let rest = royalty.drop_last();
        let last = royalty.last();
        lemma_perpetual_payouts_total(rest, owner, amount);
        lemma_perpetual_total_bound(rest, owner);
        if shares_exact(royalty, owner, amount) {
            assert(shares_exact(rest, owner, amount)) by {
                assert forall|i: int| 0 <= i < rest.len() && (#[trigger] rest[i]).0
                    != owner implies (rest[i].1 * amount) % 10_000 == 0 by {
                    assert(royalty[i] == rest[i]);
                }
            }
            assert(royalty[royalty.len() - 1] == last);
        }
        if last.0 != owner {
            let rest_out = perpetual_payouts(rest, owner, amount);
            assert(out.drop_last() =~= rest_out);
            lemma_share_split(last.1 as int, amount as int);
            lemma_share_sum(last.1 as int, perpetual_total(rest, owner) as int, amount as int);
        }
    }
}

/// The amounts of a payout do not exceed the amount that is split. They come
/// to it where no share of another than the owner is rounded: the owner's
/// share takes up what the others leave.
pub proof fn payout_never_exceeds_amount(royalty: Seq<(Seq<char>, u32)>, owner: Seq<char>, amount: u128)
    requires
        royalty_total(royalty) <= ROYALTY_WHOLE,
    ensures
        payout_total(payout_entries(royalty, owner, amount)) <= amount,
        shares_exact(royalty, owner, amount) ==> payout_total(
            payout_entries(royalty, owner, amount),
        ) == amount,
{
    let others = perpetual_payouts(royalty, owner, amount);
    let parts = perpetual_total(royalty, owner) as int;
    let all = payout_entries(royalty, owner, amount);
    lemma_perpetual_payouts_total(royalty, owner, amount);
    lemma_perpetual_total_bound(royalty, owner);
    assert(all.drop_last() =~= others);
    lemma_share_split(10_000 - parts, amount as int);
    lemma_share_sum(parts, 10_000 - parts, amount as int);
    assert(share_of(10_000, amount as int) == amount) by (nonlinear_arith);
}

/// What a transfer with payout leaves for the host to do.
pub struct TransferPayout {
    /// What each account is to receive of the proceeds.
    pub payout: Payout,
    /// The record for the event log.
    pub log: NftTransferLog,
    /// The refund of the storage of the approvals that the transfer dropped.
    pub refund: Refund,
}

/// What `balance` pays to each account, for a token of `owner_id` with the
/// royalty `royalty`.
pub fn split_balance(royalty: &StringMap<u32>, owner_id: &AccountId, balance: u128) -> (res: Payout)
    requires
        royalty.wf(),
        royalty_total(royalty.entries()) <= ROYALTY_WHOLE,
    ensures
        res.payout.wf(),
        res.payout.entries() == payout_entries(royalty.entries(), owner_id@, balance),
        payout_total(res.payout.entries()) <= balance,
        shares_exact(royalty.entries(), owner_id@, balance) ==> payout_total(res.payout.entries())
            == balance,
{
    let ghost entries = royalty.entries();
    let ghost owner = owner_id@;
    let mut total_perpetual: u32 = 0;
    let mut payout: StringMap<u128> = StringMap::new();
    let mut i: usize = 0;
    proof {
        assert(entries.take(0) =~= Seq::<(Seq<char>, u32)>::empty());
        lemma_perpetual_total_bound(entries, owner);
    }
    while i < royalty.len()
        invariant
            i <= entries.len(),
            entries == royalty.entries(),
            owner == owner_id@,
            distinct_keys(entries),
            royalty_total(entries) <= ROYALTY_WHOLE,
            payout.wf(),
            payout.entries() == perpetual_payouts(entries.take(i as int), owner, balance),
            total_perpetual == perpetual_total(entries.take(i as int), owner),
        decreases entries.len() - i,
    {
        let ghost done = entries.take(i as int);
        let ghost next = entries.take(i as int + 1);
        proof {
            assert(next.drop_last() =~= done);
            assert(next.last() == entries[i as int]);
            lemma_perpetual_payouts_keys(done, owner, balance);
            lemma_royalty_total_prefix(entries, i as int + 1);
            lemma_perpetual_total_bound(next, owner);
            if has_key(done, entries[i as int].0) {
                let j = choose|j: int| 0 <= j < done.len() && (#[trigger] done[j]).0 == entries[i as int].0;
                assert(entries[j].0 != entries[i as int].0);
            }
        }
        let key = royalty.key_at(i);
        let share = *royalty.value_at(i);
        if !(*key == *owner_id) {
            payout.insert(key.clone(), royalty_to_payout(share, balance));
            total_perpetual = total_perpetual + share;
        }
        i += 1;
    }
    proof {
        assert(entries.take(i as int) =~= entries);
        lemma_perpetual_payouts_keys(entries, owner, balance);
        payout_never_exceeds_amount(entries, owner, balance);
        lemma_share_split(ROYALTY_WHOLE - total_perpetual, balance as int);
    }
    payout.insert(owner_id.clone(), royalty_to_payout(ROYALTY_WHOLE - total_perpetual, balance));
    Payout { payout }
}

/// The shares of a beginning of a royalty do not exceed those of all of it.
pub proof fn lemma_royalty_total_prefix(royalty: Seq<(Seq<char>, u32)>, n: int)
    requires
        0 <= n <= royalty.len(),
    ensures
        royalty_total(royalty.take(n)) <= royalty_total(royalty),
    decreases royalty.len() - n,
{
    if n < royalty.len() {
        lemma_royalty_total_prefix(royalty, n + 1);
        assert(royalty.take(n + 1).drop_last() =~= royalty.take(n));
    } else {
        assert(royalty.take(n) =~= royalty);
    }
}

pub trait NftRoyalty: Consistent {
    /// What `balance` pays to each account on a sale of `token_id`.
    ///
    /// A token that does not exist is refused with `NotFound`, a royalty
    /// with more entries than `max_len_payout` with `TooManyRecipients`.
    /// The ledger is not changed.
    fn nft_payout(&self, token_id: TokenId, balance: u128, max_len_payout: u32) -> (res: Result<
        Payout,
        NftError,
    >)
        requires
            self.consistent(),
        ensures
            match res {
                Ok(done) => {
                    let token = self.ledger().tokens_by_id[token_id@];
                    &&& payout_refusal(self.ledger().tokens_by_id, token_id@, max_len_payout) is None
                    &&& done.payout.wf()
                    &&& done.payout.entries() == payout_entries(
                        token.royalty,
                        token.owner_id,
                        balance,
                    )
                    &&& payout_total(done.payout.entries()) <= balance
                    &&& shares_exact(token.royalty, token.owner_id, balance) ==> payout_total(
                        done.payout.entries(),
                    ) == balance
                },
                Err(e) => payout_refusal(self.ledger().tokens_by_id, token_id@, max_len_payout) == Some(e),
            },
    ;

    /// Moves `token_id` to `receiver_id` for the caller, and says what
    /// `balance` pays to each account.
    ///
    /// The call comes with exactly one yoctoNEAR, else it is refused with
    /// `PaymentExact`; after that it is refused as `internal_transfer` is
    /// with the approval id `approval_id`, and then as `nft_payout` is. The
    /// payout is that of the token in the receiver's hands. A refused call
    /// changes nothing.
    fn nft_transfer_payout(
        &mut self,
        context: &CallContext,
        receiver_id: AccountId,
        token_id: TokenId,
        approval_id: u64,
        memo: Option<String>,
        balance: u128,
        max_len_payout: u32,
    ) -> (res: Result<TransferPayout, NftError>)
        requires
            old(self).consistent(),
        ensures
            final(self).consistent(),
            tokens_kept(old(self).ledger(), final(self).ledger()),
            match res {
                Ok(done) => {
                    let token = old(self).ledger().tokens_by_id[token_id@];
                    &&& transfer_payout_refusal(
                        old(self).ledger(),
                        context.predecessor_account_id@,
                        context.attached_deposit,
                        receiver_id@,
                        token_id@,
                        approval_id,
                        max_len_payout,
                    ) is None
                    &&& final(self).ledger() == old(self).ledger().after_transfer(receiver_id@, token_id@)
                    &&& final(self).ledger().tokens_by_id[token_id@].owner_id == receiver_id@
                    &&& final(self).ledger().tokens_by_id[token_id@].approved_account_ids.len() == 0
                    &&& done.payout.payout.wf()
                    &&& done.payout.payout.entries() == payout_entries(
                        token.royalty,
                        receiver_id@,
                        balance,
                    )
                    &&& payout_total(done.payout.payout.entries()) <= balance
                    &&& shares_exact(token.royalty, receiver_id@, balance) ==> payout_total(
                        done.payout.payout.entries(),
                    ) == balance
                    &&& done.log@ == transfer_log(
                        acting_delegate(context.predecessor_account_id@, token.owner_id),
                        token.owner_id,
                        receiver_id@,
                        token_id@,
                        memo.deep_view(),
                    )
                    &&& done.refund@ == (RefundView {
                        account_id: token.owner_id,
                        amount: released_cost(
                            keys_of(token.approved_account_ids),
                            context.storage_byte_cost,
                        ) as u128,
                    })
                },
                Err(e) => {
                    &&& transfer_payout_refusal(
                        old(self).ledger(),
                        context.predecessor_account_id@,
                        context.attached_deposit,
                        receiver_id@,
                        token_id@,
                        approval_id,
                        max_len_payout,
                    ) == Some(e)
                    &&& *final(self) == *old(self)
                },
            },
    ;
}

impl NftRoyalty for NftContract {
    fn nft_payout(&self, token_id: TokenId, balance: u128, max_len_payout: u32) -> (res: Result<
        Payout,
        NftError,
    >) {
        match self.tokens_by_id.get(&token_id) {
            None => Err(NftError::NotFound),
            Some(token) => {
                assert(self@.tokens_by_id.contains_key(token_id@));
                assert(token@ == self@.tokens_by_id[token_id@]);
                if token.royalty.len() > max_len_payout as usize {
                    return Err(NftError::TooManyRecipients);
                }
                Ok(split_balance(&token.royalty, &token.owner_id, balance))
            },
        }
    }

    fn nft_transfer_payout(
        &mut self,
        context: &CallContext,
        receiver_id: AccountId,
        token_id: TokenId,
        approval_id: u64,
        memo: Option<String>,
        balance: u128,
        max_len_payout: u32,
    ) -> (res: Result<TransferPayout, NftError>) {
        match assert_one_yocto(context.attached_deposit) {
            Ok(()) => {},
            Err(e) => {
                return Err(e);
            },
        }
        let too_many = match self.tokens_by_id.get(&token_id) {
            Some(token) => token.royalty.len() > max_len_payout as usize,
            None => false,
        };
        if too_many {
            proof {
                assert(self@.tokens_by_id.contains_key(token_id@));
            }
            let refused = self.transfer_refused(
                &context.predecessor_account_id,
                &receiver_id,
                &token_id,
                Some(approval_id),
            );
            return match refused {
                Some(e) => Err(e),
                None => Err(NftError::TooManyRecipients),
            };
        }
        let done = match self.internal_transfer(
            &context.predecessor_account_id,
            &receiver_id,
            &token_id,
            Some(approval_id),
            memo,
        ) {
            Ok(done) => done,
            Err(e) => {
                return Err(e);
            },
        };
        let Transferred { previous_token, log } = done;
        proof {
            assert(old(self)@.tokens_by_id.contains_key(token_id@));
            assert(previous_token@.wf());
        }
        let payout = split_balance(&previous_token.royalty, &receiver_id, balance);
        let refund = refund_approved_account_ids(
            previous_token.owner_id,
            &previous_token.approved_account_ids,
            context.storage_byte_cost,
        );
        Ok(TransferPayout { payout, log, refund })
    }
}

/// Why a transfer with payout is refused, if anything stands against it:
/// the deposit, then what stands against the transfer, then what stands
/// against the payout.
pub open spec fn transfer_payout_refusal(
    s: crate::ledger::LedgerView,
    caller: Seq<char>,
    deposit: u128,
    receiver: Seq<char>,
    token_id: Seq<char>,
    approval_id: u64,
    max_len_payout: u32,
) -> Option<NftError> {
    let transfer = fee_then(
        deposit,
        NftError::PaymentExact,
        s.transfer_refusal(caller, receiver, token_id, Some(approval_id)),
    );
    if transfer is Some {
        transfer
    } else {
        payout_refusal(s.tokens_by_id, token_id, max_len_payout)
    }
}

} // verus!
