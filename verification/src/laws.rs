//! What holds of the ledger whatever calls are made on it.

use crate::ledger::{
    index_holds, lemma_rollback_keeps_wf, lemma_transfer_keeps_wf, tokens_kept, LedgerView,
};
use crate::promise::return_requested;
use crate::string_map::distinct_keys;
use vstd::prelude::*;

verus! {

/// In a well-formed ledger the owner index lists a token under its owner
/// and under no other account.
pub proof fn owner_index_agrees(s: LedgerView, token_id: Seq<char>, account: Seq<char>)
    requires
        s.wf(),
        s.tokens_by_id.contains_key(token_id),
    ensures
        index_holds(s.tokens_per_owner, account, token_id) <==> account
            == s.tokens_by_id[token_id].owner_id,
{
    assert(index_holds(s.tokens_per_owner, s.tokens_by_id[token_id].owner_id, token_id));
    if index_holds(s.tokens_per_owner, account, token_id) {
        assert(s.tokens_by_id[token_id].owner_id == account);
    }
}

/// In a well-formed ledger the owner index lists no token that the
/// registry does not know.
pub proof fn owner_index_lists_tokens_only(s: LedgerView, token_id: Seq<char>, account: Seq<char>)
    requires
        s.wf(),
        index_holds(s.tokens_per_owner, account, token_id),
    ensures
        s.tokens_by_id.contains_key(token_id),
{
}

/// What is kept of the tokens from a first state to a second, and from the
/// second to a third, is kept from the first to the third.
pub proof fn tokens_kept_chain(first: LedgerView, second: LedgerView, third: LedgerView)
    requires
        tokens_kept(first, second),
        tokens_kept(second, third),
    ensures
        tokens_kept(first, third),
{
    assert forall|t: Seq<char>| #[trigger] first.tokens_by_id.contains_key(t) implies {
        &&& third.tokens_by_id.contains_key(t)
        &&& third.tokens_by_id[t].royalty == first.tokens_by_id[t].royalty
        &&& first.tokens_by_id[t].next_approval_id <= third.tokens_by_id[t].next_approval_id
    } by {
        assert(second.tokens_by_id.contains_key(t));
    }
}

/// The id that an approval gets is less than the id that any later approval
/// for the same token gets, whatever calls were made in between: no call
/// lowers a counter, and an approval gets the id at which the counter
/// stands.
pub proof fn approval_ids_increase(
    before: LedgerView,
    token_id: Seq<char>,
    grantee: Seq<char>,
    later: LedgerView,
)
    requires
        before.tokens_by_id.contains_key(token_id),
        before.tokens_by_id[token_id].next_approval_id < u64::MAX,
        tokens_kept(before.after_approve(token_id, grantee), later),
    ensures
        later.tokens_by_id.contains_key(token_id),
        before.tokens_by_id[token_id].next_approval_id
            < later.tokens_by_id[token_id].next_approval_id,
{
    assert(before.after_approve(token_id, grantee).tokens_by_id.contains_key(token_id));
}

/// A transfer with notification that the receiver lets stand leaves the
/// token without approvals.
pub proof fn finalized_transfer_leaves_no_approvals(
    s: LedgerView,
    sender: Seq<char>,
    receiver: Seq<char>,
    token_id: Seq<char>,
    approval_id: Option<u64>,
    results: Seq<Option<Seq<u8>>>,
)
    requires
        s.wf(),
        s.transfer_refusal(sender, receiver, token_id, approval_id) is None,
        results.len() == 1,
        !return_requested(results[0]),
    ensures
        ({
            let token = s.tokens_by_id[token_id];
            let moved = s.after_transfer(receiver, token_id);
            let settled = moved.after_resolve(
                results,
                token.owner_id,
                receiver,
                token_id,
                token.approved_account_ids,
            );
            &&& moved.resolve_refusal(results, receiver, token_id, token.approved_account_ids)
                is None
            &&& settled == moved
            &&& settled.tokens_by_id[token_id].owner_id == receiver
            &&& settled.tokens_by_id[token_id].approved_account_ids.len() == 0
        }),
{
}

/// A transfer with notification whose receiver fails, or asks for the
/// return, leaves the ledger as it was before the transfer: every token has
/// the record that it had, the token that went out has its owner and its
/// approvals again, and the index lists what it listed.
pub proof fn returned_transfer_restores_ledger(
    s: LedgerView,
    sender: Seq<char>,
    receiver: Seq<char>,
    token_id: Seq<char>,
    approval_id: Option<u64>,
    results: Seq<Option<Seq<u8>>>,
)
    requires
        s.wf(),
        s.transfer_refusal(sender, receiver, token_id, approval_id) is None,
        results.len() == 1,
        return_requested(results[0]),
    ensures
        ({
            let token = s.tokens_by_id[token_id];
            let moved = s.after_transfer(receiver, token_id);
            let back = moved.after_resolve(
                results,
                token.owner_id,
                receiver,
                token_id,
                token.approved_account_ids,
            );
            &&& moved.rollback_due(results, receiver, token_id)
            &&& moved.resolve_refusal(results, receiver, token_id, token.approved_account_ids)
                is None
            &&& back.wf()
            &&& back.tokens_by_id == s.tokens_by_id
            &&& back.token_metadata_by_id == s.token_metadata_by_id
            &&& forall|a: Seq<char>, t: Seq<char>|
                index_holds(back.tokens_per_owner, a, t) == index_holds(s.tokens_per_owner, a, t)
        }),
{
    let token = s.tokens_by_id[token_id];
    let moved = s.after_transfer(receiver, token_id);
    lemma_transfer_keeps_wf(s, sender, receiver, token_id, approval_id);
    assert(s.tokens_by_id.contains_key(token_id));
    assert(token.wf());
    assert(moved.tokens_by_id[token_id].next_approval_id == token.next_approval_id);
    lemma_rollback_keeps_wf(
        moved,
        results,
        token.owner_id,
        receiver,
        token_id,
        token.approved_account_ids,
    );
    let back = moved.after_rollback(token.owner_id, receiver, token_id, token.approved_account_ids);
    assert(back.tokens_by_id =~= s.tokens_by_id);
    assert forall|a: Seq<char>, t: Seq<char>|
        index_holds(back.tokens_per_owner, a, t) == index_holds(s.tokens_per_owner, a, t) by {
        if index_holds(back.tokens_per_owner, a, t) {
            assert(back.tokens_by_id.contains_key(t) && back.tokens_by_id[t].owner_id == a);
            assert(index_holds(s.tokens_per_owner, s.tokens_by_id[t].owner_id, t));
        }
        if index_holds(s.tokens_per_owner, a, t) {
            assert(s.tokens_by_id.contains_key(t) && s.tokens_by_id[t].owner_id == a);
            assert(index_holds(back.tokens_per_owner, back.tokens_by_id[t].owner_id, t));
        }
    }
}

/// Acting twice on the answer to one transfer does what acting once does.
/// Where the first time sent the token back, the second finds that the
/// receiver no longer owns it, moves nothing and refunds nothing; where the
/// first time let the transfer stand, nothing was moved or refunded at all.
pub proof fn resolving_twice_changes_nothing(
    s: LedgerView,
    results: Seq<Option<Seq<u8>>>,
    owner: Seq<char>,
    receiver: Seq<char>,
    token_id: Seq<char>,
    approvals: Seq<(Seq<char>, u64)>,
)
    requires
        s.wf(),
        distinct_keys(approvals),
        owner != receiver,
        s.resolve_refusal(results, receiver, token_id, approvals) is None,
    ensures
        ({
            let once = s.after_resolve(results, owner, receiver, token_id, approvals);
            let twice = once.after_resolve(results, owner, receiver, token_id, approvals);
            &&& once.resolve_refusal(results, receiver, token_id, approvals) is None
            &&& twice == once
            &&& s.rollback_due(results, receiver, token_id) ==> !once.rollback_due(
                results,
                receiver,
                token_id,
            )
            &&& !s.rollback_due(results, receiver, token_id) ==> once == s
        }),
{
}

/// The second time that the answer to a transfer with notification is acted
/// on, with what the transfer handed out, nothing changes, whatever the
/// first time did.
pub proof fn second_resolution_of_a_transfer_is_idle(
    s: LedgerView,
    sender: Seq<char>,
    receiver: Seq<char>,
    token_id: Seq<char>,
    approval_id: Option<u64>,
    results: Seq<Option<Seq<u8>>>,
)
    requires
        s.wf(),
        s.transfer_refusal(sender, receiver, token_id, approval_id) is None,
        results.len() == 1,
    ensures
        ({
            let token = s.tokens_by_id[token_id];
            let moved = s.after_transfer(receiver, token_id);
            let once = moved.after_resolve(
                results,
                token.owner_id,
                receiver,
                token_id,
                token.approved_account_ids,
            );
            let twice = once.after_resolve(
                results,
                token.owner_id,
                receiver,
                token_id,
                token.approved_account_ids,
            );
            &&& moved.resolve_refusal(results, receiver, token_id, token.approved_account_ids)
                is None
            &&& once.resolve_refusal(results, receiver, token_id, token.approved_account_ids)
                is None
            &&& twice == once
            &&& moved.rollback_due(results, receiver, token_id) ==> !once.rollback_due(
                results,
                receiver,
                token_id,
            )
        }),
{
    let token = s.tokens_by_id[token_id];
    let moved = s.after_transfer(receiver, token_id);
    lemma_transfer_keeps_wf(s, sender, receiver, token_id, approval_id);
    assert(s.tokens_by_id.contains_key(token_id));
    assert(token.wf());
    resolving_twice_changes_nothing(
        moved,
        results,
        token.owner_id,
        receiver,
        token_id,
        token.approved_account_ids,
    );
}

} // verus!
