//! The mathematical model of the ledger: its state, what holds of every
//! state, and what each call makes of a state.

use crate::error::NftError;
use crate::metadata::{
    all_below, royalty_total, ContractMetadataView, TokenMetadataView, TokenView, MAX_ROYALTIES,
    ROYALTY_WHOLE,
};
use crate::internal::approval_bytes;
use crate::promise::return_requested;
use crate::string_map::{distinct_keys, has_key, lemma_put, lemma_without, lookup, put, without};
use vstd::prelude::*;

verus! {

/// The owner index: for each account that owns a token, the tokens it owns.
pub type IndexView = Map<Seq<char>, Seq<Seq<char>>>;

/// The index lists `token` under `account`.
pub open spec fn index_holds(index: IndexView, account: Seq<char>, token: Seq<char>) -> bool {
    index.contains_key(account) && index[account].contains(token)
}

/// No list of the index is empty, and none names a token twice.
pub open spec fn index_wf(index: IndexView) -> bool {
    forall|a: Seq<char>| #[trigger]
        index.contains_key(a) ==> index[a].len() > 0 && index[a].no_duplicates()
}

/// A place of `x` in `s`.
pub open spec fn slot<T>(s: Seq<T>, x: T) -> int {
    choose|i: int| 0 <= i < s.len() && s[i] == x
}

/// `s` without its element `i`, whose place the last element takes.
pub open spec fn swap_removed<T>(s: Seq<T>, i: int) -> Seq<T> {
    s.update(i, s.last()).drop_last()
}

/// The index after `token` was listed under `account`: at the end of the
/// account's list, which is made if the account had none.
pub open spec fn index_add(index: IndexView, account: Seq<char>, token: Seq<char>) -> IndexView {
    if index.contains_key(account) {
        if index[account].contains(token) {
            index
        } else {
            index.insert(account, index[account].push(token))
        }
    } else {
        index.insert(account, seq![token])
    }
}

/// The index after `token` was taken from the list of `account`. The last
/// token of the list takes its place; a list left empty is dropped.
pub open spec fn index_remove(index: IndexView, account: Seq<char>, token: Seq<char>) -> IndexView {
    let rest = swap_removed(index[account], slot(index[account], token));
    if rest.len() == 0 {
        index.remove(account)
    } else {
        index.insert(account, rest)
    }
}

/// The model of the whole contract.
pub ghost struct LedgerView {
    /// The account that runs the contract.
    pub owner_id: Seq<char>,
    /// The description of the contract.
    pub metadata: ContractMetadataView,
    /// The owner index.
    pub tokens_per_owner: IndexView,
    /// The registry: the record of each token.
    pub tokens_by_id: Map<Seq<char>, TokenView>,
    /// The description of each token.
    pub token_metadata_by_id: Map<Seq<char>, TokenMetadataView>,
}

/// The record that a transfer leaves: the receiver owns the token, nobody is
/// approved, the counter and the royalty are kept.
pub open spec fn token_moved_to(token: TokenView, receiver: Seq<char>) -> TokenView {
    TokenView {
        owner_id: receiver,
        approved_account_ids: Seq::empty(),
        next_approval_id: token.next_approval_id,
        royalty: token.royalty,
    }
}

/// The bytes of storage that the approval of `grantee` adds to `token`: none
/// where the account is approved already.
pub open spec fn approval_growth(token: TokenView, grantee: Seq<char>) -> int {
    if has_key(token.approved_account_ids, grantee) {
        0
    } else {
        approval_bytes(grantee)
    }
}

/// What every call keeps of the tokens: no token of `before` is missing in
/// `after`, none has another royalty, and no counter of approval ids stands
/// lower.
pub open spec fn tokens_kept(before: LedgerView, after: LedgerView) -> bool {
    forall|t: Seq<char>| #[trigger]
        before.tokens_by_id.contains_key(t) ==> {
            &&& after.tokens_by_id.contains_key(t)
            &&& after.tokens_by_id[t].royalty == before.tokens_by_id[t].royalty
            &&& before.tokens_by_id[t].next_approval_id <= after.tokens_by_id[t].next_approval_id
        }
}

impl LedgerView {
    /// What holds of the ledger at all times: every token has a sound record
    /// and a description, the index lists every token under its owner, and
    /// lists nothing else.
    pub open spec fn wf(self) -> bool {
        &&& index_wf(self.tokens_per_owner)
        &&& forall|t: Seq<char>| #[trigger]
            self.tokens_by_id.contains_key(t) ==> self.token_metadata_by_id.contains_key(t)
        &&& forall|t: Seq<char>| #[trigger]
            self.token_metadata_by_id.contains_key(t) ==> self.tokens_by_id.contains_key(t)
        &&& forall|t: Seq<char>| #[trigger]
            self.tokens_by_id.contains_key(t) ==> self.tokens_by_id[t].wf() && index_holds(
                self.tokens_per_owner,
                self.tokens_by_id[t].owner_id,
                t,
            )
        &&& forall|a: Seq<char>, t: Seq<char>| #[trigger]
            index_holds(self.tokens_per_owner, a, t) ==> self.tokens_by_id.contains_key(t)
                && self.tokens_by_id[t].owner_id == a
    }

    /// Why `sender` may not move `token_id` to `receiver`, if anything stands
    /// against it.
    pub open spec fn transfer_refusal(
        self,
        sender: Seq<char>,
        receiver: Seq<char>,
        token_id: Seq<char>,
        approval_id: Option<u64>,
    ) -> Option<NftError> {
        if !self.tokens_by_id.contains_key(token_id) {
            Some(NftError::NotFound)
        } else {
            let token = self.tokens_by_id[token_id];
            if sender != token.owner_id && approval_id is None {
                Some(NftError::ApprovalRequired)
            } else if sender != token.owner_id && lookup(token.approved_account_ids, sender)
                != approval_id {
                Some(NftError::NotApproved)
            } else if receiver == token.owner_id {
                Some(NftError::SelfTransfer)
            } else {
                None
            }
        }
    }

    /// Why `caller` may not change the approvals of `token_id`, if anything
    /// stands against it.
    pub open spec fn owner_refusal(self, caller: Seq<char>, token_id: Seq<char>) -> Option<
        NftError,
    > {
        if !self.tokens_by_id.contains_key(token_id) {
            Some(NftError::NotFound)
        } else if caller != self.tokens_by_id[token_id].owner_id {
            Some(NftError::NotOwner)
        } else {
            None
        }
    }

    /// Why `caller` may not approve `grantee` for `token_id` with the deposit
    /// `deposit`, if anything stands against it.
    pub open spec fn approve_refusal(
        self,
        caller: Seq<char>,
        deposit: u128,
        byte_cost: u128,
        token_id: Seq<char>,
        grantee: Seq<char>,
    ) -> Option<NftError> {
        if deposit < 1 {
            Some(NftError::PaymentRequired)
        } else if self.owner_refusal(caller, token_id) is Some {
            self.owner_refusal(caller, token_id)
        } else if self.tokens_by_id[token_id].next_approval_id == u64::MAX {
            Some(NftError::ApprovalIdsExhausted)
        } else if deposit < byte_cost * approval_growth(self.tokens_by_id[token_id], grantee) {
            Some(NftError::PaymentRequired)
        } else {
            None
        }
    }

    /// The ledger after `grantee` was approved for `token_id`: it holds the
    /// id that was next, and the counter stands one higher.
    pub open spec fn after_approve(self, token_id: Seq<char>, grantee: Seq<char>) -> LedgerView {
        let token = self.tokens_by_id[token_id];
        LedgerView {
            tokens_by_id: self.tokens_by_id.insert(
                token_id,
                TokenView {
                    approved_account_ids: put(
                        token.approved_account_ids,
                        grantee,
                        token.next_approval_id,
                    ),
                    next_approval_id: (token.next_approval_id + 1) as u64,
                    ..token
                },
            ),
            ..self
        }
    }

    /// The ledger after the approval of `account` for `token_id` was taken
    /// back.
    pub open spec fn after_revoke(self, token_id: Seq<char>, account: Seq<char>) -> LedgerView {
        let token = self.tokens_by_id[token_id];
        LedgerView {
            tokens_by_id: self.tokens_by_id.insert(
                token_id,
                TokenView {
                    approved_account_ids: without(token.approved_account_ids, account),
                    ..token
                },
            ),
            ..self
        }
    }

    /// The ledger after every approval for `token_id` was taken back.
    pub open spec fn after_revoke_all(self, token_id: Seq<char>) -> LedgerView {
        let token = self.tokens_by_id[token_id];
        LedgerView {
            tokens_by_id: self.tokens_by_id.insert(
                token_id,
                TokenView { approved_account_ids: Seq::empty(), ..token },
            ),
            ..self
        }
    }

    /// Why `token_id` cannot be minted with `royalty`, if anything stands
    /// against it.
    pub open spec fn mint_refusal(
        self,
        deposit: u128,
        token_id: Seq<char>,
        royalty: Seq<(Seq<char>, u32)>,
    ) -> Option<NftError> {
        if deposit == 0 {
            Some(NftError::PaymentRequired)
        } else if royalty.len() > MAX_ROYALTIES {
            Some(NftError::TooManyRoyalties)
        } else if royalty_total(royalty) > ROYALTY_WHOLE {
            Some(NftError::RoyaltyExceeded)
        } else if self.tokens_by_id.contains_key(token_id) {
            Some(NftError::TokenExists)
        } else {
            None
        }
    }

    /// The ledger after `token_id` was minted for `receiver`.
    pub open spec fn after_mint(
        self,
        token_id: Seq<char>,
        metadata: TokenMetadataView,
        receiver: Seq<char>,
        royalty: Seq<(Seq<char>, u32)>,
    ) -> LedgerView {
        LedgerView {
            tokens_per_owner: index_add(self.tokens_per_owner, receiver, token_id),
            tokens_by_id: self.tokens_by_id.insert(
                token_id,
                TokenView {
                    owner_id: receiver,
                    approved_account_ids: Seq::empty(),
                    next_approval_id: 0,
                    royalty,
                },
            ),
            token_metadata_by_id: self.token_metadata_by_id.insert(token_id, metadata),
            ..self
        }
    }

    /// The answer to a transfer with notification makes the token go back:
    /// there is one result, it asks for the return, and `receiver` still owns
    /// the token.
    pub open spec fn rollback_due(
        self,
        results: Seq<Option<Seq<u8>>>,
        receiver: Seq<char>,
        token_id: Seq<char>,
    ) -> bool {
        &&& results.len() == 1
        &&& return_requested(results[0])
        &&& self.tokens_by_id.contains_key(token_id)
        &&& self.tokens_by_id[token_id].owner_id == receiver
    }

    /// Why the answer to a transfer with notification cannot be acted on, if
    /// anything stands against it: there is not exactly one result, or the
    /// token is to go back with an approval id that it has not handed out.
    pub open spec fn resolve_refusal(
        self,
        results: Seq<Option<Seq<u8>>>,
        receiver: Seq<char>,
        token_id: Seq<char>,
        approvals: Seq<(Seq<char>, u64)>,
    ) -> Option<NftError> {
        if results.len() != 1 {
            Some(NftError::ProtocolViolation)
        } else if self.rollback_due(results, receiver, token_id) && !all_below(
            approvals,
            self.tokens_by_id[token_id].next_approval_id,
        ) {
            Some(NftError::InconsistentState)
        } else {
            None
        }
    }

    /// The ledger after `token_id` went back from `receiver` to `owner` with
    /// the approvals that it had.
    pub open spec fn after_rollback(
        self,
        owner: Seq<char>,
        receiver: Seq<char>,
        token_id: Seq<char>,
        approvals: Seq<(Seq<char>, u64)>,
    ) -> LedgerView {
        let token = self.tokens_by_id[token_id];
        LedgerView {
            tokens_per_owner: index_add(
                index_remove(self.tokens_per_owner, receiver, token_id),
                owner,
                token_id,
            ),
            tokens_by_id: self.tokens_by_id.insert(
                token_id,
                TokenView { owner_id: owner, approved_account_ids: approvals, ..token },
            ),
            ..self
        }
    }

    /// The ledger after the answer to a transfer with notification was acted
    /// on.
    pub open spec fn after_resolve(
        self,
        results: Seq<Option<Seq<u8>>>,
        owner: Seq<char>,
        receiver: Seq<char>,
        token_id: Seq<char>,
        approvals: Seq<(Seq<char>, u64)>,
    ) -> LedgerView {
        if self.rollback_due(results, receiver, token_id) {
            self.after_rollback(owner, receiver, token_id, approvals)
        } else {
            self
        }
    }

    /// The ledger after `token_id` went to `receiver`.
    pub open spec fn after_transfer(self, receiver: Seq<char>, token_id: Seq<char>) -> LedgerView {
        let token = self.tokens_by_id[token_id];
        LedgerView {
            tokens_per_owner: index_add(
                index_remove(self.tokens_per_owner, token.owner_id, token_id),
                receiver,
                token_id,
            ),
            tokens_by_id: self.tokens_by_id.insert(token_id, token_moved_to(token, receiver)),
            ..self
        }
    }
}

/// A transfer that nothing stands against keeps the ledger well formed and
/// leaves the token without approvals. It keeps every token with its
/// royalty, and lowers no counter.
pub proof fn lemma_transfer_keeps_wf(
    s: LedgerView,
    sender: Seq<char>,
    receiver: Seq<char>,
    token_id: Seq<char>,
    approval_id: Option<u64>,
)
    requires
        s.wf(),
        s.transfer_refusal(sender, receiver, token_id, approval_id) is None,
    ensures
        s.after_transfer(receiver, token_id).wf(),
        s.after_transfer(receiver, token_id).tokens_by_id[token_id].approved_account_ids.len() == 0,
        s.after_transfer(receiver, token_id).tokens_by_id[token_id].owner_id == receiver,
        tokens_kept(s, s.after_transfer(receiver, token_id)),
{
    let r = s.after_transfer(receiver, token_id);
    let token = s.tokens_by_id[token_id];
    assert(s.tokens_by_id.contains_key(token_id));
    assert(index_holds(s.tokens_per_owner, token.owner_id, token_id));
    let taken = index_remove(s.tokens_per_owner, token.owner_id, token_id);
    lemma_index_remove(s.tokens_per_owner, token.owner_id, token_id);
    lemma_index_add(taken, receiver, token_id);
    assert(token_moved_to(token, receiver).wf());
    assert forall|t: Seq<char>| #[trigger] r.tokens_by_id.contains_key(t) implies r.tokens_by_id[t].wf()
        && index_holds(r.tokens_per_owner, r.tokens_by_id[t].owner_id, t) by {
        if t != token_id {
            assert(s.tokens_by_id.contains_key(t));
            assert(index_holds(s.tokens_per_owner, s.tokens_by_id[t].owner_id, t));
            assert(index_holds(taken, s.tokens_by_id[t].owner_id, t));
            assert(index_holds(index_add(taken, receiver, token_id), s.tokens_by_id[t].owner_id, t));
        } else {
            assert(r.tokens_by_id[t] == token_moved_to(token, receiver));
            assert(index_holds(index_add(taken, receiver, token_id), receiver, token_id));
        }
    }
    assert forall|a: Seq<char>, t: Seq<char>| #[trigger]
        index_holds(r.tokens_per_owner, a, t) implies r.tokens_by_id.contains_key(t)
        && r.tokens_by_id[t].owner_id == a by {
        if !(a == receiver && t == token_id) {
            assert(index_holds(taken, a, t));
            assert(index_holds(s.tokens_per_owner, a, t));
        }
    }
}

/// A ledger stays well formed, and no counter is lowered, where one token
/// gets other approvals and a counter that is not lower, and these are sound.
pub proof fn lemma_approvals_changed(
    s: LedgerView,
    token_id: Seq<char>,
    approvals: Seq<(Seq<char>, u64)>,
    next_approval_id: u64,
)
    requires
        s.wf(),
        s.tokens_by_id.contains_key(token_id),
        distinct_keys(approvals),
        all_below(approvals, next_approval_id),
        s.tokens_by_id[token_id].next_approval_id <= next_approval_id,
    ensures
        ({
            let token = s.tokens_by_id[token_id];
            let r = LedgerView {
                tokens_by_id: s.tokens_by_id.insert(
                    token_id,
                    TokenView { approved_account_ids: approvals, next_approval_id, ..token },
                ),
                ..s
            };
            r.wf() && tokens_kept(s, r)
        }),
{
    let token = s.tokens_by_id[token_id];
    let r = LedgerView {
        tokens_by_id: s.tokens_by_id.insert(
            token_id,
            TokenView { approved_account_ids: approvals, next_approval_id, ..token },
        ),
        ..s
    };
    assert forall|t: Seq<char>| #[trigger] r.tokens_by_id.contains_key(t) implies r.tokens_by_id[t].wf()
        && index_holds(r.tokens_per_owner, r.tokens_by_id[t].owner_id, t) by {
        assert(s.tokens_by_id.contains_key(t));
    }
    assert forall|a: Seq<char>, t: Seq<char>| #[trigger]
        index_holds(r.tokens_per_owner, a, t) implies r.tokens_by_id.contains_key(t)
        && r.tokens_by_id[t].owner_id == a by {
        assert(index_holds(s.tokens_per_owner, a, t));
    }
}

/// An approval that nothing stands against keeps the ledger well formed. It
/// keeps every token with its royalty, and lowers no counter.
pub proof fn lemma_approve_keeps_wf(s: LedgerView, token_id: Seq<char>, grantee: Seq<char>)
    requires
        s.wf(),
        s.tokens_by_id.contains_key(token_id),
        s.tokens_by_id[token_id].next_approval_id < u64::MAX,
    ensures
        s.after_approve(token_id, grantee).wf(),
        tokens_kept(s, s.after_approve(token_id, grantee)),
{
    let token = s.tokens_by_id[token_id];
    let next = token.next_approval_id;
    let approvals = put(token.approved_account_ids, grantee, next);
    lemma_put(token.approved_account_ids, grantee, next);
    assert(all_below(approvals, (next + 1) as u64)) by {
        assert forall|i: int| 0 <= i < approvals.len() implies (#[trigger] approvals[i]).1 < next
            + 1 by {
            if has_key(token.approved_account_ids, grantee) {
                if i != crate::string_map::position(token.approved_account_ids, grantee) {
                    assert(approvals[i] == token.approved_account_ids[i]);
                }
            } else {
                if i < token.approved_account_ids.len() {
                    assert(approvals[i] == token.approved_account_ids[i]);
                }
            }
        }
    }
    lemma_approvals_changed(s, token_id, approvals, (next + 1) as u64);
}

/// Taking an approval back keeps the ledger well formed and lowers no
/// counter.
pub proof fn lemma_revoke_keeps_wf(s: LedgerView, token_id: Seq<char>, account: Seq<char>)
    requires
        s.wf(),
        s.tokens_by_id.contains_key(token_id),
    ensures
        s.after_revoke(token_id, account).wf(),
        tokens_kept(s, s.after_revoke(token_id, account)),
        !has_key(s.tokens_by_id[token_id].approved_account_ids, account) ==> s.after_revoke(
            token_id,
            account,
        ) == s,
{
    let token = s.tokens_by_id[token_id];
    let approvals = without(token.approved_account_ids, account);
    lemma_without(token.approved_account_ids, account);
    assert(all_below(approvals, token.next_approval_id)) by {
        assert forall|i: int| 0 <= i < approvals.len() implies (#[trigger] approvals[i]).1
            < token.next_approval_id by {
            if has_key(token.approved_account_ids, account) {
                let p = crate::string_map::position(token.approved_account_ids, account);
                if i < p {
                    assert(approvals[i] == token.approved_account_ids[i]);
                } else {
                    assert(approvals[i] == token.approved_account_ids[i + 1]);
                }
            }
        }
    }
    lemma_approvals_changed(s, token_id, approvals, token.next_approval_id);
    if !has_key(token.approved_account_ids, account) {
        assert(s.after_revoke(token_id, account).tokens_by_id =~= s.tokens_by_id);
    }
}

/// Taking every approval back keeps the ledger well formed and lowers no
/// counter.
pub proof fn lemma_revoke_all_keeps_wf(s: LedgerView, token_id: Seq<char>)
    requires
        s.wf(),
        s.tokens_by_id.contains_key(token_id),
    ensures
        s.after_revoke_all(token_id).wf(),
        tokens_kept(s, s.after_revoke_all(token_id)),
        s.tokens_by_id[token_id].approved_account_ids.len() == 0 ==> s.after_revoke_all(token_id)
            == s,
{
    let token = s.tokens_by_id[token_id];
    lemma_approvals_changed(
        s,
        token_id,
        Seq::<(Seq<char>, u64)>::empty(),
        token.next_approval_id,
    );
    if token.approved_account_ids.len() == 0 {
        assert(token.approved_account_ids =~= Seq::<(Seq<char>, u64)>::empty());
        assert(s.after_revoke_all(token_id).tokens_by_id =~= s.tokens_by_id);
    }
}

/// A mint that nothing stands against keeps the ledger well formed. It keeps
/// every token with its royalty, and lowers no counter.
pub proof fn lemma_mint_keeps_wf(
    s: LedgerView,
    deposit: u128,
    token_id: Seq<char>,
    metadata: TokenMetadataView,
    receiver: Seq<char>,
    royalty: Seq<(Seq<char>, u32)>,
)
    requires
        s.wf(),
        distinct_keys(royalty),
        s.mint_refusal(deposit, token_id, royalty) is None,
    ensures
        s.after_mint(token_id, metadata, receiver, royalty).wf(),
        tokens_kept(s, s.after_mint(token_id, metadata, receiver, royalty)),
{
    let r = s.after_mint(token_id, metadata, receiver, royalty);
    lemma_index_add(s.tokens_per_owner, receiver, token_id);
    assert forall|t: Seq<char>| #[trigger] r.tokens_by_id.contains_key(t) implies r.tokens_by_id[t].wf()
        && index_holds(r.tokens_per_owner, r.tokens_by_id[t].owner_id, t) by {
        if t != token_id {
            assert(s.tokens_by_id.contains_key(t));
            assert(index_holds(s.tokens_per_owner, s.tokens_by_id[t].owner_id, t));
            assert(index_holds(
                index_add(s.tokens_per_owner, receiver, token_id),
                s.tokens_by_id[t].owner_id,
                t,
            ));
        } else {
            assert(index_holds(
                index_add(s.tokens_per_owner, receiver, token_id),
                receiver,
                token_id,
            ));
        }
    }
    assert forall|a: Seq<char>, t: Seq<char>| #[trigger]
        index_holds(r.tokens_per_owner, a, t) implies r.tokens_by_id.contains_key(t)
        && r.tokens_by_id[t].owner_id == a by {
        if !(a == receiver && t == token_id) {
            assert(index_holds(s.tokens_per_owner, a, t));
        }
    }
}

/// A return of the token that nothing stands against keeps the ledger well
/// formed. It keeps every token with its royalty, and lowers no counter.
pub proof fn lemma_rollback_keeps_wf(
    s: LedgerView,
    results: Seq<Option<Seq<u8>>>,
    owner: Seq<char>,
    receiver: Seq<char>,
    token_id: Seq<char>,
    approvals: Seq<(Seq<char>, u64)>,
)
    requires
        s.wf(),
        distinct_keys(approvals),
        s.rollback_due(results, receiver, token_id),
        s.resolve_refusal(results, receiver, token_id, approvals) is None,
    ensures
        s.after_rollback(owner, receiver, token_id, approvals).wf(),
        tokens_kept(s, s.after_rollback(owner, receiver, token_id, approvals)),
{
    let r = s.after_rollback(owner, receiver, token_id, approvals);
    let token = s.tokens_by_id[token_id];
    assert(s.tokens_by_id.contains_key(token_id));
    assert(index_holds(s.tokens_per_owner, receiver, token_id));
    let taken = index_remove(s.tokens_per_owner, receiver, token_id);
    lemma_index_remove(s.tokens_per_owner, receiver, token_id);
    lemma_index_add(taken, owner, token_id);
    assert forall|t: Seq<char>| #[trigger] r.tokens_by_id.contains_key(t) implies r.tokens_by_id[t].wf()
        && index_holds(r.tokens_per_owner, r.tokens_by_id[t].owner_id, t) by {
        if t != token_id {
            assert(s.tokens_by_id.contains_key(t));
            assert(index_holds(s.tokens_per_owner, s.tokens_by_id[t].owner_id, t));
            assert(index_holds(taken, s.tokens_by_id[t].owner_id, t));
            assert(index_holds(index_add(taken, owner, token_id), s.tokens_by_id[t].owner_id, t));
        } else {
            assert(index_holds(index_add(taken, owner, token_id), owner, token_id));
        }
    }
    assert forall|a: Seq<char>, t: Seq<char>| #[trigger]
        index_holds(r.tokens_per_owner, a, t) implies r.tokens_by_id.contains_key(t)
        && r.tokens_by_id[t].owner_id == a by {
        if !(a == owner && t == token_id) {
            assert(index_holds(taken, a, t));
            assert(index_holds(s.tokens_per_owner, a, t));
        }
    }
}

/// With no element twice, the place of element `i` is `i`.
pub proof fn lemma_slot_of_element<T>(s: Seq<T>, i: int)
    requires
        s.no_duplicates(),
        0 <= i < s.len(),
    ensures
        slot(s, s[i]) == i,
{
    let p = slot(s, s[i]);
    assert(0 <= p < s.len() && s[p] == s[i]);
}

/// What `swap_removed` keeps of a list without repetition.
pub proof fn lemma_swap_removed<T>(s: Seq<T>, i: int)
    requires
        s.no_duplicates(),
        0 <= i < s.len(),
    ensures
        swap_removed(s, i).no_duplicates(),
        swap_removed(s, i).len() == s.len() - 1,
        forall|x: T| swap_removed(s, i).contains(x) <==> s.contains(x) && x != s[i],
{
    let r = swap_removed(s, i);
    let n = s.len() as int;
    assert(r.len() == n - 1);
    assert(forall|j: int| 0 <= j < n - 1 && j != i ==> r[j] == s[j]);
    assert(i < n - 1 ==> r[i] == s[n - 1]);
    assert forall|a: int, b: int| 0 <= a < r.len() && 0 <= b < r.len() && a != b implies r[a]
        != r[b] by {
        let sa = if a == i {
            n - 1
        } else {
            a
        };
        let sb = if b == i {
            n - 1
        } else {
            b
        };
        assert(r[a] == s[sa] && r[b] == s[sb]);
    }
    assert forall|x: T| r.contains(x) <==> s.contains(x) && x != s[i] by {
        if r.contains(x) {
            let a = choose|a: int| 0 <= a < r.len() && r[a] == x;
            let sa = if a == i {
                n - 1
            } else {
                a
            };
            assert(s[sa] == x);
        }
        if s.contains(x) && x != s[i] {
            let a = choose|a: int| 0 <= a < s.len() && s[a] == x;
            let ra = if a == n - 1 {
                i
            } else {
                a
            };
            assert(r[ra] == x);
        }
    }
}

/// What `index_add` keeps and changes.
pub proof fn lemma_index_add(index: IndexView, account: Seq<char>, token: Seq<char>)
    requires
        index_wf(index),
    ensures
        index_wf(index_add(index, account, token)),
        forall|a: Seq<char>, t: Seq<char>|
            #![trigger index_holds(index_add(index, account, token), a, t)]
            index_holds(index_add(index, account, token), a, t) <==> index_holds(index, a, t) || (a
                == account && t == token),
{
    let r = index_add(index, account, token);
    if index.contains_key(account) {
        let list = index[account];
        if !list.contains(token) {
            let grown = list.push(token);
            assert(grown.no_duplicates());
            assert forall|t: Seq<char>| grown.contains(t) <==> list.contains(t) || t
                == token by {
                if grown.contains(t) {
                    let i = choose|i: int| 0 <= i < grown.len() && grown[i] == t;
                    if i < list.len() {
                        assert(list[i] == t);
                    }
                }
                if list.contains(t) {
                    let i = choose|i: int| 0 <= i < list.len() && list[i] == t;
                    assert(grown[i] == t);
                }
                assert(grown[list.len() as int] == token);
            }
        }
    } else {
        let single = seq![token];
        assert(single[0] == token);
        assert(single.no_duplicates());
        assert forall|t: Seq<char>| single.contains(t) <==> t == token by {}
    }
    assert forall|a: Seq<char>, t: Seq<char>|
        index_holds(r, a, t) <==> index_holds(index, a, t) || (a == account && t == token) by {}
}

/// What `index_remove` keeps and changes.
pub proof fn lemma_index_remove(index: IndexView, account: Seq<char>, token: Seq<char>)
    requires
        index_wf(index),
        index_holds(index, account, token),
    ensures
        index_wf(index_remove(index, account, token)),
        forall|a: Seq<char>, t: Seq<char>|
            #![trigger index_holds(index_remove(index, account, token), a, t)]
            index_holds(index_remove(index, account, token), a, t) <==> index_holds(index, a, t)
                && !(a == account && t == token),
{
    let r = index_remove(index, account, token);
    let list = index[account];
    let i = slot(list, token);
    assert(0 <= i < list.len() && list[i] == token);
    lemma_swap_removed(list, i);
    let rest = swap_removed(list, i);
    assert forall|a: Seq<char>, t: Seq<char>|
        index_holds(r, a, t) <==> index_holds(index, a, t) && !(a == account && t == token) by {
        if a == account {
            if rest.len() == 0 {
                assert(!r.contains_key(a));
                if list.contains(t) && t != token {
                    assert(rest.contains(t));
                }
            } else {
                assert(r[a] == rest);
            }
        }
    }
}

} // verus!
