//! The tokens of an account, page by page.

use crate::ledger::{index_holds, IndexView};
use crate::metadata::{json_token_of, AccountId, JsonToken};
use crate::nft_core::NftCore;
use crate::NftContract;
use vstd::prelude::*;

verus! {

/// The tokens that the index lists under `account`, in its order.
pub open spec fn owned_tokens(index: IndexView, account: Seq<char>) -> Seq<Seq<char>> {
    if index.contains_key(account) {
        index[account]
    } else {
        Seq::empty()
    }
}

/// The place in a list at which a page begins: `from_index`, or the
/// beginning where none is given, and the end of the list at most.
pub open spec fn page_start(len: nat, from_index: Option<u128>) -> int {
    match from_index {
        Some(start) if start < len => start as int,
        Some(_) => len as int,
        None => 0,
    }
}

/// The number of items on a page that begins at `start`: `limit`, or none
/// where no limit is given, and what is left of the list at most.
pub open spec fn page_len(len: nat, start: int, limit: Option<u64>) -> int {
    match limit {
        Some(count) if count < len - start => count as int,
        Some(_) => len - start,
        None => 0,
    }
}

impl NftContract {
    /// The tokens of `account_id` as a caller sees them: at most `limit` of
    /// them, from the place `from_index` of the account's list on.
    pub fn nft_tokens_for_owner(
        &self,
        account_id: AccountId,
        from_index: Option<u128>,
        limit: Option<u64>,
    ) -> (res: Vec<JsonToken>)
        requires
            self.wf(),
        ensures
            ({
                let tokens = owned_tokens(self@.tokens_per_owner, account_id@);
                let start = page_start(tokens.len(), from_index);
                let count = page_len(tokens.len(), start, limit);
                &&& res.deep_view().len() == count
                &&& forall|i: int|
                    0 <= i < count ==> #[trigger] res.deep_view()[i] == json_token_of(
                        tokens[start + i],
                        self@.tokens_by_id[tokens[start + i]],
                        self@.token_metadata_by_id[tokens[start + i]],
                    )
            }),
    {
        let mut page: Vec<JsonToken> = Vec::new();
        let tokens = match self.tokens_per_owner.get(&account_id) {
            Some(tokens) => tokens,
            None => {
                return page;
            },
        };
        let ghost listed = tokens.deep_view();
        assert(listed == owned_tokens(self@.tokens_per_owner, account_id@));
        let len = tokens.len();
        let start: usize = match from_index {
            Some(start) => if start < len as u128 {
                start as usize
            } else {
                len
            },
            None => 0,
        };
        let count: usize = match limit {
            Some(count) => if count < (len - start) as u64 {
                count as usize
            } else {
                len - start
            },
            None => 0,
        };
        let mut i: usize = 0;
        while i < count
            invariant
                self.wf(),
                listed == tokens.deep_view(),
                listed == owned_tokens(self@.tokens_per_owner, account_id@),
                self@.tokens_per_owner.contains_key(account_id@),
                len == listed.len(),
                start + count <= len,
                i <= count,
                page.deep_view().len() == i,
                forall|j: int|
                    0 <= j < i ==> #[trigger] page.deep_view()[j] == json_token_of(
                        listed[start + j],
                        self@.tokens_by_id[listed[start + j]],
                        self@.token_metadata_by_id[listed[start + j]],
                    ),
            decreases count - i,
        {
            let token_id = tokens[start + i].clone();
            assert(token_id@ == listed[start + i]);
            assert(index_holds(self@.tokens_per_owner, account_id@, token_id@));
            let ghost before = page.deep_view();
            match self.nft_token(token_id) {
                Some(token) => {
                    page.push(token);
                    assert(page.deep_view() =~= before.push(token@));
                },
                None => {},
            }
            i += 1;
        }
        page
    }
}

} // verus!
