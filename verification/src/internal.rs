//! The primitives that every call is made of: the two moves on the owner
//! index, the transfer, and the arithmetic of deposits and refunds.

use crate::error::NftError;
use crate::events::{acting_delegate, transfer_log, NftTransferLog};
use crate::ledger::{
    index_add, index_holds, index_remove, index_wf, lemma_index_add, lemma_index_remove,
    lemma_slot_of_element, lemma_transfer_keeps_wf, swap_removed, token_moved_to, tokens_kept,
};
use crate::metadata::{AccountId, Balance, Token, TokenId, ROYALTY_WHOLE};
use crate::string_map::{lemma_position_of_entry, position, StringMap};
use crate::NftContract;
use vstd::prelude::*;
use vstd::utf8::encode_utf8;

verus! {

broadcast use vstd::layout::layout_of_primitives;

/// A payment that the host is to make.
pub struct Refund {
    pub account_id: AccountId,
    pub amount: Balance,
}

/// The model of a `Refund`.
pub ghost struct RefundView {
    pub account_id: Seq<char>,
    pub amount: u128,
}

impl View for Refund {
    type V = RefundView;

    open spec fn view(&self) -> RefundView {
        RefundView { account_id: self.account_id@, amount: self.amount }
    }
}

impl DeepView for Refund {
    type V = RefundView;

    open spec fn deep_view(&self) -> RefundView {
        self@
    }
}

/// The bytes that the approval of `account` takes in storage: the account id
/// in UTF-8, four bytes for its length and eight for the approval id. A
/// number that a `u64` cannot hold counts as the largest `u64`.
pub open spec fn approval_bytes(account: Seq<char>) -> int {
    let bytes = encode_utf8(account).len() as int + 4 + 8;
    if bytes <= u64::MAX {
        bytes
    } else {
        u64::MAX as int
    }
}

/// The bytes that the approvals of all of `accounts` take in storage.
pub open spec fn released_bytes(accounts: Seq<Seq<char>>) -> int
    decreases accounts.len(),
{
    if accounts.len() == 0 {
        0
    } else {
        released_bytes(accounts.drop_last()) + approval_bytes(accounts.last())
    }
}

/// The price of the storage that the approvals of `accounts` take, at
/// `byte_cost` for each byte. A price that a `u128` cannot hold counts as the
/// largest `u128`.
pub open spec fn released_cost(accounts: Seq<Seq<char>>, byte_cost: u128) -> int {
    let cost = released_bytes(accounts) * byte_cost;
    if cost <= u128::MAX {
        cost
    } else {
        u128::MAX as int
    }
}

/// The keys of `entries` in their order.
pub open spec fn keys_of<T>(entries: Seq<(Seq<char>, T)>) -> Seq<Seq<char>> {
    Seq::new(entries.len(), |i: int| entries[i].0)
}

/// What is paid back of a deposit that exceeds the price of the storage by
/// `excess`: all of it, unless it is one yoctoNEAR or nothing.
pub open spec fn excess_refund(excess: int) -> Option<u128> {
    if excess > 1 {
        Some(excess as u128)
    } else {
        None
    }
}

/// The share of `amount` that `basis_points` parts in ten thousand come to,
/// rounded down.
pub open spec fn share_of(basis_points: int, amount: int) -> int {
    basis_points * amount / (ROYALTY_WHOLE as int)
}

/// Checks the deposit against the price of `storage_used` bytes, and says
/// what is to be paid back to the caller.
pub fn refund_deposit(storage_used: u64, attached_deposit: Balance, storage_byte_cost: Balance) -> (res:
    Result<Option<Balance>, NftError>)
    ensures
        match res {
            Ok(refund) => attached_deposit >= storage_byte_cost * storage_used && refund
                == excess_refund(attached_deposit - storage_byte_cost * storage_used),
            Err(e) => e == NftError::PaymentRequired && attached_deposit < storage_byte_cost
                * storage_used,
        },
{
    match storage_byte_cost.checked_mul(storage_used as u128) {
        None => Err(NftError::PaymentRequired),
        Some(required_cost) => {
            if attached_deposit < required_cost {
                Err(NftError::PaymentRequired)
            } else {
                let refund = attached_deposit - required_cost;
                if refund > 1 {
                    Ok(Some(refund))
                } else {
                    Ok(None)
                }
            }
        },
    }
}

/// The refund to `account_id` of the storage that the approvals of
/// `approved_account_ids` took.
pub fn refund_approved_account_ids_iter(
    account_id: AccountId,
    approved_account_ids: &Vec<AccountId>,
    storage_byte_cost: Balance,
) -> (res: Refund)
    ensures
        res@.account_id == account_id@,
        res@.amount == released_cost(approved_account_ids.deep_view(), storage_byte_cost),
{
    let ghost accounts = approved_account_ids.deep_view();
    let mut storage_released: u128 = 0;
    let mut i: usize = 0;
    while i < approved_account_ids.len()
        invariant
            i <= approved_account_ids.len(),
            accounts == approved_account_ids.deep_view(),
            released_bytes(accounts.take(i as int)) >= 0,
            storage_released == if released_bytes(accounts.take(i as int)) <= u128::MAX {
                released_bytes(accounts.take(i as int))
            } else {
                u128::MAX as int
            },
        decreases approved_account_ids.len() - i,
    {
        let bytes = bytes_for_approved_account_id(&approved_account_ids[i]);
        assert(accounts.take(i as int + 1).drop_last() =~= accounts.take(i as int));
        assert(accounts.take(i as int + 1).last() == accounts[i as int]);
        storage_released = storage_released.saturating_add(bytes as u128);
        i += 1;
    }
    assert(accounts.take(i as int) =~= accounts);
    let amount = match storage_released.checked_mul(storage_byte_cost) {
        Some(amount) => amount,
        None => u128::MAX,
    };
    proof {
        let total = released_bytes(accounts);
        if total > u128::MAX {
            if storage_byte_cost > 0 {
                assert(total * storage_byte_cost >= total) by (nonlinear_arith)
                    requires
                        total >= 0,
                        storage_byte_cost >= 1,
                ;
                assert(storage_released * storage_byte_cost >= storage_released)
                    by (nonlinear_arith)
                    requires
                        storage_released >= 0,
                        storage_byte_cost >= 1,
                ;
            } else {
                assert(total * storage_byte_cost == 0) by (nonlinear_arith)
                    requires
                        storage_byte_cost == 0,
                ;
                assert(storage_released * storage_byte_cost == 0) by (nonlinear_arith)
                    requires
                        storage_byte_cost == 0,
                ;
            }
        }
    }
    Refund { account_id, amount }
}

/// The refund to `account_id` of the storage that `approved_account_ids`
/// took.
pub fn refund_approved_account_ids(
    account_id: AccountId,
    approved_account_ids: &StringMap<u64>,
    storage_byte_cost: Balance,
) -> (res: Refund)
    ensures
        res@.account_id == account_id@,
        res@.amount == released_cost(keys_of(approved_account_ids.entries()), storage_byte_cost),
{
    let accounts = approved_account_ids.keys();
    refund_approved_account_ids_iter(account_id, &accounts, storage_byte_cost)
}

/// The bytes that the approval of `account_id` takes in storage.
pub fn bytes_for_approved_account_id(account_id: &AccountId) -> (res: u64)
    ensures
        res == approval_bytes(account_id@),
{
    let len = account_id.as_str().as_bytes().len();
    let id_bytes = core::mem::size_of::<u64>();
    (len as u64).saturating_add(4).saturating_add(id_bytes as u64)
}

/// Asks for a deposit of exactly one yoctoNEAR.
pub fn assert_one_yocto(attached_deposit: Balance) -> (res: Result<(), NftError>)
    ensures
        res is Ok <==> attached_deposit == 1,
        res is Err ==> res->Err_0 == NftError::PaymentExact,
{
    if attached_deposit == 1 {
        Ok(())
    } else {
        Err(NftError::PaymentExact)
    }
}

/// Asks for a deposit of at least one yoctoNEAR.
pub fn assert_at_least_one_yocto(attached_deposit: Balance) -> (res: Result<(), NftError>)
    ensures
        res is Ok <==> attached_deposit >= 1,
        res is Err ==> res->Err_0 == NftError::PaymentRequired,
{
    if attached_deposit >= 1 {
        Ok(())
    } else {
        Err(NftError::PaymentRequired)
    }
}

/// The share of `amount_to_pay` that `royalty_percentage` parts in ten
/// thousand come to, rounded down. A share that a `u128` cannot hold counts
/// as the largest `u128`.
pub fn royalty_to_payout(royalty_percentage: u32, amount_to_pay: Balance) -> (res: u128)
    ensures
        res == if share_of(royalty_percentage as int, amount_to_pay as int) <= u128::MAX {
            share_of(royalty_percentage as int, amount_to_pay as int)
        } else {
            u128::MAX as int
        },
        royalty_percentage <= ROYALTY_WHOLE ==> res == share_of(
            royalty_percentage as int,
            amount_to_pay as int,
        ),
{
    let whole = ROYALTY_WHOLE as u128;
    let points = royalty_percentage as u128;
    let quotient = amount_to_pay / whole;
    let remainder = amount_to_pay % whole;
    assert(remainder * points <= 10_000 * 0xffff_ffff) by (nonlinear_arith)
        requires
            0 <= remainder < 10_000,
            0 <= points <= 0xffff_ffff,
    ;
    let small = remainder * points / whole;
    proof {
        lemma_share_split(royalty_percentage as int, amount_to_pay as int);
    }
    match quotient.checked_mul(points) {
        None => u128::MAX,
        Some(large) => match large.checked_add(small) {
            None => u128::MAX,
            Some(share) => share,
        },
    }
}

/// A share is the share of the full ten thousands of the amount and the
/// share of what is left, and it does not exceed the amount if the parts do
/// not exceed ten thousand.
pub proof fn lemma_share_split(basis_points: int, amount: int)
    requires
        0 <= basis_points,
        0 <= amount,
    ensures
        share_of(basis_points, amount) == (amount / 10_000) * basis_points + (amount % 10_000)
            * basis_points / 10_000,
        0 <= share_of(basis_points, amount),
        basis_points <= 10_000 ==> share_of(basis_points, amount) <= amount,
{
    let q = amount / 10_000;
    let r = amount % 10_000;
    assert(amount == q * 10_000 + r && 0 <= r < 10_000 && 0 <= q);
    assert(basis_points * amount == (q * basis_points) * 10_000 + r * basis_points)
        by (nonlinear_arith)
        requires
            amount == q * 10_000 + r,
    ;
    assert(0 <= r * basis_points) by (nonlinear_arith)
        requires
            0 <= r,
            0 <= basis_points,
    ;
    let x = q * basis_points;
    let y = r * basis_points;
    assert((x * 10_000 + y) / 10_000 == x + y / 10_000) by (nonlinear_arith)
        requires
            0 <= y,
    ;
    assert(0 <= q * basis_points) by (nonlinear_arith)
        requires
            0 <= q,
            0 <= basis_points,
    ;
    if basis_points <= 10_000 {
        assert(basis_points * amount <= 10_000 * amount) by (nonlinear_arith)
            requires
                basis_points <= 10_000,
                0 <= amount,
        ;
        assert(basis_points * amount / 10_000 <= amount) by (nonlinear_arith)
            requires
                basis_points * amount <= 10_000 * amount,
        ;
    }
}

/// The first place of `item` in `list`.
pub fn find_text(list: &Vec<String>, item: &String) -> (res: Option<usize>)
    ensures
        match res {
            Some(i) => {
                &&& i < list.len()
                &&& list.deep_view()[i as int] == item@
                &&& forall|j: int| 0 <= j < i ==> list.deep_view()[j] != item@
            },
            None => !list.deep_view().contains(item@),
        },
{
    let mut i: usize = 0;
    while i < list.len()
        invariant
            i <= list.len(),
            forall|j: int| 0 <= j < i ==> list.deep_view()[j] != item@,
        decreases list.len() - i,
    {
        if list[i] == *item {
            return Some(i);
        }
        i += 1;
    }
    None
}

/// What a transfer hands back: the record of the token as it was, and the
/// record of the transfer for the event log.
pub struct Transferred {
    pub previous_token: Token,
    pub log: NftTransferLog,
}

/// Whether `list` names no item twice.
pub fn all_distinct(list: &Vec<String>) -> (res: bool)
    ensures
        res == list.deep_view().no_duplicates(),
{
    let ghost items = list.deep_view();
    let mut i: usize = 0;
    while i < list.len()
        invariant
            i <= list.len(),
            items == list.deep_view(),
            forall|a: int, b: int| 0 <= a < b < i ==> items[a] != items[b],
        decreases list.len() - i,
    {
        let mut j: usize = 0;
        while j < i
            invariant
                j <= i < list.len(),
                items == list.deep_view(),
                forall|a: int| 0 <= a < j ==> items[a] != items[i as int],
            decreases i - j,
        {
            if list[j] == list[i] {
                assert(items[j as int] == items[i as int]);
                return false;
            }
            j += 1;
        }
        i += 1;
    }
    assert forall|a: int, b: int|
        0 <= a < items.len() && 0 <= b < items.len() && a != b implies items[a] != items[b] by {
        if a < b {
            assert(items[a] != items[b]);
        } else {
            assert(items[b] != items[a]);
        }
    }
    true
}

impl NftContract {
    /// Whether every token has a well-formed record and a description.
    fn records_are_sound(&self) -> (res: bool)
        requires
            self.tokens_per_owner.wf(),
            self.tokens_by_id.wf(),
            self.token_metadata_by_id.wf(),
        ensures
            res == ({
                &&& forall|t: Seq<char>| #[trigger]
                    self@.tokens_by_id.contains_key(t) ==> self@.token_metadata_by_id.contains_key(
                        t,
                    )
                &&& forall|t: Seq<char>| #[trigger]
                    self@.token_metadata_by_id.contains_key(t) ==> self@.tokens_by_id.contains_key(
                        t,
                    )
                &&& forall|t: Seq<char>| #[trigger]
                    self@.tokens_by_id.contains_key(t) ==> self@.tokens_by_id[t].wf()
                        && index_holds(self@.tokens_per_owner, self@.tokens_by_id[t].owner_id, t)
            }),
    {
        let ghost records = self.tokens_by_id.entries();
        let ghost descriptions = self.token_metadata_by_id.entries();
        let mut i: usize = 0;
        while i < self.tokens_by_id.len()
            invariant
                i <= records.len(),
                records == self.tokens_by_id.entries(),
                self.tokens_per_owner.wf(),
                self.tokens_by_id.wf(),
                self.token_metadata_by_id.wf(),
                forall|j: int|
                    0 <= j < i ==> {
                        let t = (#[trigger] records[j]).0;
                        &&& self@.token_metadata_by_id.contains_key(t)
                        &&& self@.tokens_by_id[t].wf()
                        &&& index_holds(self@.tokens_per_owner, self@.tokens_by_id[t].owner_id, t)
                    },
            decreases records.len() - i,
        {
            let token_id = self.tokens_by_id.key_at(i);
            let token = self.tokens_by_id.value_at(i);
            proof {
                lemma_position_of_entry(records, i as int);
                assert(self@.tokens_by_id.contains_key(token_id@));
                assert(self@.tokens_by_id[token_id@] == token@);
            }
            if !token.is_sound() {
                return false;
            }
            if !self.token_metadata_by_id.contains_key(token_id) {
                return false;
            }
            let listed = match self.tokens_per_owner.get(&token.owner_id) {
                Some(list) => find_text(list, token_id).is_some(),
                None => false,
            };
            if !listed {
                assert(!index_holds(self@.tokens_per_owner, token@.owner_id, token_id@));
                return false;
            }
            i += 1;
        }
        assert forall|t: Seq<char>| #[trigger] self@.tokens_by_id.contains_key(t) implies {
            &&& self@.token_metadata_by_id.contains_key(t)
            &&& self@.tokens_by_id[t].wf()
            &&& index_holds(self@.tokens_per_owner, self@.tokens_by_id[t].owner_id, t)
        } by {
            let j = position(records, t);
            assert(records[j].0 == t);
        }
        let mut k: usize = 0;
        while k < self.token_metadata_by_id.len()
            invariant
                k <= descriptions.len(),
                descriptions == self.token_metadata_by_id.entries(),
                forall|j: int|
                    0 <= j < k ==> self@.tokens_by_id.contains_key((#[trigger] descriptions[j]).0),
            decreases descriptions.len() - k,
        {
            let token_id = self.token_metadata_by_id.key_at(k);
            if !self.tokens_by_id.contains_key(token_id) {
                assert(self@.token_metadata_by_id.contains_key(token_id@)) by {
                    assert(descriptions[k as int].0 == token_id@);
                }
                return false;
            }
            k += 1;
        }
        assert forall|t: Seq<char>| #[trigger]
            self@.token_metadata_by_id.contains_key(t) implies self@.tokens_by_id.contains_key(
            t,
        ) by {
            let j = position(descriptions, t);
            assert(descriptions[j].0 == t);
        }
        true
    }

    /// Whether every list of the owner index is sound, and names tokens of
    /// its account only.
    fn index_is_sound(&self) -> (res: bool)
        requires
            self.tokens_per_owner.wf(),
            self.tokens_by_id.wf(),
        ensures
            res == ({
                &&& index_wf(self@.tokens_per_owner)
                &&& forall|a: Seq<char>, t: Seq<char>| #[trigger]
                    index_holds(self@.tokens_per_owner, a, t) ==> self@.tokens_by_id.contains_key(
                        t,
                    ) && self@.tokens_by_id[t].owner_id == a
            }),
    {
        let ghost lists = self.tokens_per_owner.entries();
        let mut i: usize = 0;
        while i < self.tokens_per_owner.len()
            invariant
                i <= lists.len(),
                lists == self.tokens_per_owner.entries(),
                self.tokens_per_owner.wf(),
                self.tokens_by_id.wf(),
                forall|j: int|
                    0 <= j < i ==> {
                        let list = (#[trigger] lists[j]).1;
                        &&& list.len() > 0
                        &&& list.no_duplicates()
                        &&& forall|n: int|
                            0 <= n < list.len() ==> self@.tokens_by_id.contains_key(
                                #[trigger] list[n],
                            ) && self@.tokens_by_id[list[n]].owner_id == lists[j].0
                    },
            decreases lists.len() - i,
        {
            let account_id = self.tokens_per_owner.key_at(i);
            let list = self.tokens_per_owner.value_at(i);
            let ghost names = list.deep_view();
            proof {
                lemma_position_of_entry(lists, i as int);
                assert(self@.tokens_per_owner.contains_key(account_id@));
                assert(self@.tokens_per_owner[account_id@] == names);
            }
            if list.len() == 0 {
                return false;
            }
            if !all_distinct(list) {
                return false;
            }
            let mut n: usize = 0;
            while n < list.len()
                invariant
                    n <= list.len(),
                    names == list.deep_view(),
                    self.tokens_by_id.wf(),
                    self@.tokens_per_owner.contains_key(account_id@),
                    self@.tokens_per_owner[account_id@] == names,
                    forall|m: int|
                        0 <= m < n ==> self@.tokens_by_id.contains_key(#[trigger] names[m])
                            && self@.tokens_by_id[names[m]].owner_id == account_id@,
                decreases list.len() - n,
            {
                let owned = match self.tokens_by_id.get(&list[n]) {
                    Some(token) => token.owner_id == *account_id,
                    None => false,
                };
                if !owned {
                    assert(names[n as int] == list[n as int]@);
                    assert(index_holds(self@.tokens_per_owner, account_id@, names[n as int]));
                    return false;
                }
                n += 1;
            }
            i += 1;
        }
        assert forall|a: Seq<char>| #[trigger] self@.tokens_per_owner.contains_key(a) implies {
            &&& self@.tokens_per_owner[a].len() > 0
            &&& self@.tokens_per_owner[a].no_duplicates()
        } by {
            let j = position(lists, a);
            assert(lists[j].0 == a);
        }
        assert forall|a: Seq<char>, t: Seq<char>| #[trigger]
            index_holds(self@.tokens_per_owner, a, t) implies self@.tokens_by_id.contains_key(t)
            && self@.tokens_by_id[t].owner_id == a by {
            let j = position(lists, a);
            assert(lists[j].0 == a);
            let list = lists[j].1;
            let n = choose|n: int| 0 <= n < list.len() && list[n] == t;
            assert(self@.tokens_by_id.contains_key(list[n]));
        }
        true
    }

    /// Whether the contract is well formed. Every call on the contract asks
    /// for a well-formed contract and leaves one; a contract that was put
    /// together by hand, or read from storage, can be tested here.
    pub fn is_consistent(&self) -> (res: bool)
        ensures
            res == self.wf(),
    {
        self.tokens_per_owner.has_distinct_keys() && self.tokens_by_id.has_distinct_keys()
            && self.token_metadata_by_id.has_distinct_keys() && self.index_is_sound()
            && self.records_are_sound()
    }

    /// Lists `token_id` under `account_id` in the owner index.
    pub fn internal_add_token_to_owner(&mut self, account_id: &AccountId, token_id: &TokenId)
        requires
            old(self).tokens_per_owner.wf(),
            index_wf(old(self)@.tokens_per_owner),
        ensures
            final(self).tokens_per_owner.wf(),
            index_wf(final(self)@.tokens_per_owner),
            final(self)@.tokens_per_owner == index_add(
                old(self)@.tokens_per_owner,
                account_id@,
                token_id@,
            ),
            final(self).owner_id == old(self).owner_id,
            final(self).metadata == old(self).metadata,
            final(self).tokens_by_id == old(self).tokens_by_id,
            final(self).token_metadata_by_id == old(self).token_metadata_by_id,
    {
        let ghost index = self@.tokens_per_owner;
        proof {
            lemma_index_add(index, account_id@, token_id@);
        }
        let mut list = match self.tokens_per_owner.remove(account_id) {
            Some(list) => list,
            None => Vec::new(),
        };
        let ghost before = list.deep_view();
        assert(index.contains_key(account_id@) ==> before == index[account_id@]);
        assert(!index.contains_key(account_id@) ==> before =~= Seq::<Seq<char>>::empty());
        if find_text(&list, token_id).is_none() {
            list.push(token_id.clone());
            assert(list.deep_view() =~= before.push(token_id@));
            assert(before.len() == 0 ==> before.push(token_id@) =~= seq![token_id@]);
        }
        self.tokens_per_owner.insert(account_id.clone(), list);
        assert(self@.tokens_per_owner =~= index_add(index, account_id@, token_id@));
    }

    /// Takes `token_id` from the list of `account_id` in the owner index.
    /// Where the index does not list it there, nothing is changed.
    pub fn internal_remove_token_from_owner(
        &mut self,
        account_id: &AccountId,
        token_id: &TokenId,
    ) -> (res: Result<(), NftError>)
        requires
            old(self).tokens_per_owner.wf(),
            index_wf(old(self)@.tokens_per_owner),
        ensures
            res is Ok <==> index_holds(old(self)@.tokens_per_owner, account_id@, token_id@),
            res is Err ==> res->Err_0 == NftError::InconsistentState && *final(self) == *old(self),
            res is Ok ==> final(self)@.tokens_per_owner == index_remove(
                old(self)@.tokens_per_owner,
                account_id@,
                token_id@,
            ),
            final(self).tokens_per_owner.wf(),
            index_wf(final(self)@.tokens_per_owner),
            final(self).owner_id == old(self).owner_id,
            final(self).metadata == old(self).metadata,
            final(self).tokens_by_id == old(self).tokens_by_id,
            final(self).token_metadata_by_id == old(self).token_metadata_by_id,
    {
        let ghost index = self@.tokens_per_owner;
        let place = match self.tokens_per_owner.get(account_id) {
            None => {
                return Err(NftError::InconsistentState);
            },
            Some(list) => match find_text(list, token_id) {
                None => {
                    return Err(NftError::InconsistentState);
                },
                Some(i) => i,
            },
        };
        let mut list = match self.tokens_per_owner.remove(account_id) {
            Some(list) => list,
            None => Vec::new(),
        };
        let ghost before = list.deep_view();
        assert(index.contains_key(account_id@));
        assert(before == index[account_id@]);
        proof {
            lemma_index_remove(index, account_id@, token_id@);
            lemma_slot_of_element(before, place as int);
        }
        list.swap_remove(place);
        assert(list.deep_view() =~= swap_removed(before, place as int));
        if list.len() > 0 {
            self.tokens_per_owner.insert(account_id.clone(), list);
        }
        assert(self@.tokens_per_owner =~= index_remove(index, account_id@, token_id@));
        Ok(())
    }

    /// What stands against the transfer of `token_id` to `receiver_id` on
    /// the word of `sender_id`, if anything does.
    pub fn transfer_refused(
        &self,
        sender_id: &AccountId,
        receiver_id: &AccountId,
        token_id: &TokenId,
        approval_id: Option<u64>,
    ) -> (res: Option<NftError>)
        requires
            self.wf(),
        ensures
            res == self@.transfer_refusal(sender_id@, receiver_id@, token_id@, approval_id),
    {
        match self.tokens_by_id.get(token_id) {
            None => Some(NftError::NotFound),
            Some(token) => {
                assert(self@.tokens_by_id.contains_key(token_id@));
                assert(token@ == self@.tokens_by_id[token_id@]);
                if !(*sender_id == token.owner_id) {
                    match approval_id {
                        None => {
                            return Some(NftError::ApprovalRequired);
                        },
                        Some(given) => match token.approved_account_ids.get(sender_id) {
                            None => {
                                return Some(NftError::NotApproved);
                            },
                            Some(actual) => {
                                if *actual != given {
                                    return Some(NftError::NotApproved);
                                }
                            },
                        },
                    }
                }
                if token.owner_id == *receiver_id {
                    return Some(NftError::SelfTransfer);
                }
                None
            },
        }
    }

    /// Moves `token_id` to `receiver_id` on the word of `sender_id`.
    ///
    /// The sender is the owner, or it holds the approval with the id
    /// `approval_id`. The receiver is not the owner. The token changes hands
    /// in the registry and in the owner index, its approvals are dropped, its
    /// counter of approval ids and its royalty are kept. A refused transfer
    /// changes nothing.
    pub fn internal_transfer(
        &mut self,
        sender_id: &AccountId,
        receiver_id: &AccountId,
        token_id: &TokenId,
        approval_id: Option<u64>,
        memo: Option<String>,
    ) -> (res: Result<Transferred, NftError>)
        requires
            old(self).wf(),
        ensures
            final(self).wf(),
            tokens_kept(old(self)@, final(self)@),
            match res {
                Ok(done) => {
                    &&& old(self)@.transfer_refusal(
                        sender_id@,
                        receiver_id@,
                        token_id@,
                        approval_id,
                    ) is None
                    &&& final(self)@ == old(self)@.after_transfer(receiver_id@, token_id@)
                    &&& final(self)@.tokens_by_id[token_id@].owner_id == receiver_id@
                    &&& final(self)@.tokens_by_id[token_id@].approved_account_ids.len() == 0
                    &&& done.previous_token@ == old(self)@.tokens_by_id[token_id@]
                    &&& done.log@ == transfer_log(
                        acting_delegate(sender_id@, done.previous_token@.owner_id),
                        done.previous_token@.owner_id,
                        receiver_id@,
                        token_id@,
                        memo.deep_view(),
                    )
                },
                Err(e) => {
                    &&& old(self)@.transfer_refusal(
                        sender_id@,
                        receiver_id@,
                        token_id@,
                        approval_id,
                    ) == Some(e)
                    &&& *final(self) == *old(self)
                },
            },
    {
        let ghost before = self@;
        match self.transfer_refused(sender_id, receiver_id, token_id, approval_id) {
            Some(e) => {
                return Err(e);
            },
            None => {},
        }
        let (owner_id, next_approval_id, royalty) = match self.tokens_by_id.get(token_id) {
            Some(token) => (token.owner_id.clone(), token.next_approval_id, token.royalty.clone()),
            None => {
                return Err(NftError::NotFound);
            },
        };
        proof {
            lemma_transfer_keeps_wf(before, sender_id@, receiver_id@, token_id@, approval_id);
        }
        // The index of a well-formed contract lists the token under its owner,
        // so that the removal is not refused.
        match self.internal_remove_token_from_owner(&owner_id, token_id) {
            Ok(()) => {},
            Err(e) => {
                return Err(e);
            },
        }
        self.internal_add_token_to_owner(receiver_id, token_id);
        let transferred_token = Token {
            owner_id: receiver_id.clone(),
            approved_account_ids: StringMap::new(),
            next_approval_id,
            royalty,
        };
        assert(transferred_token@ == token_moved_to(before.tokens_by_id[token_id@], receiver_id@));
        let previous = self.tokens_by_id.insert(token_id.clone(), transferred_token);
        assert(previous is Some);
        let previous_token = previous.unwrap();
        assert(self@ == before.after_transfer(receiver_id@, token_id@));
        let authorized_id = if !(*sender_id == owner_id) {
            Some(sender_id.clone())
        } else {
            None
        };
        let log = NftTransferLog::of_transfer(
            authorized_id,
            &owner_id,
            receiver_id,
            token_id,
            &memo,
        );
        Ok(Transferred { previous_token, log })
    }
}

} // verus!
