//! The making of a token.

use crate::error::NftError;
use crate::events::{mint_log, NftMintLog};
use crate::ledger::{lemma_mint_keeps_wf, tokens_kept};
use crate::metadata::{
    royalty_fits, AccountId, Balance, Token, TokenId, TokenMetadata, MAX_ROYALTIES,
};
use crate::string_map::StringMap;
use crate::NftContract;
use vstd::prelude::*;

verus! {

/// The royalty that a mint sets: the one given, or none.
pub open spec fn royalty_given(perpetual_royalties: Option<StringMap<u32>>) -> Seq<
    (Seq<char>, u32),
> {
    match perpetual_royalties {
        Some(royalty) => royalty.entries(),
        None => Seq::empty(),
    }
}

impl NftContract {
    /// Makes the token `token_id` for `receiver_id`, with the description
    /// `metadata` and the royalty `perpetual_royalties`.
    ///
    /// The call comes with a deposit, else it is refused with
    /// `PaymentRequired`. More than six royalties are refused with
    /// `TooManyRoyalties`, shares of more than ten thousand in all with
    /// `RoyaltyExceeded`, an id that is taken with `TokenExists`. The new
    /// token has no approvals, and its first approval id is 0.
    pub fn nft_mint(
        &mut self,
        attached_deposit: Balance,
        token_id: TokenId,
        metadata: TokenMetadata,
        receiver_id: AccountId,
        perpetual_royalties: Option<StringMap<u32>>,
    ) -> (res: Result<NftMintLog, NftError>)
        requires
            old(self).wf(),
            perpetual_royalties is Some ==> perpetual_royalties->0.wf(),
        ensures
            final(self).wf(),
            tokens_kept(old(self)@, final(self)@),
            match res {
                Ok(log) => {
                    &&& old(self)@.mint_refusal(
                        attached_deposit,
                        token_id@,
                        royalty_given(perpetual_royalties),
                    ) is None
                    &&& final(self)@ == old(self)@.after_mint(
                        token_id@,
                        metadata@,
                        receiver_id@,
                        royalty_given(perpetual_royalties),
                    )
                    &&& log@ == mint_log(receiver_id@, token_id@)
                },
                Err(e) => {
                    &&& old(self)@.mint_refusal(
                        attached_deposit,
                        token_id@,
                        royalty_given(perpetual_royalties),
                    ) == Some(e)
                    &&& *final(self) == *old(self)
                },
            },
    {
        let ghost before = self@;
        let ghost given = royalty_given(perpetual_royalties);
        if attached_deposit == 0 {
            return Err(NftError::PaymentRequired);
        }
        let royalty = match perpetual_royalties {
            Some(royalty) => royalty,
            None => StringMap::new(),
        };
        assert(royalty.entries() == given);
        if royalty.len() > MAX_ROYALTIES {
            return Err(NftError::TooManyRoyalties);
        }
        if !royalty_fits(&royalty) {
            return Err(NftError::RoyaltyExceeded);
        }
        if self.tokens_by_id.contains_key(&token_id) {
            return Err(NftError::TokenExists);
        }
        proof {
            lemma_mint_keeps_wf(
                before,
                attached_deposit,
                token_id@,
                metadata@,
                receiver_id@,
                given,
            );
        }
        let log = NftMintLog::of_mint(&receiver_id, &token_id);
        let token = Token {
            owner_id: receiver_id.clone(),
            approved_account_ids: StringMap::new(),
            next_approval_id: 0,
            royalty,
        };
        self.tokens_by_id.insert(token_id.clone(), token);
        self.token_metadata_by_id.insert(token_id.clone(), metadata);
        self.internal_add_token_to_owner(&receiver_id, &token_id);
        assert(self@ == before.after_mint(token_id@, metadata@, receiver_id@, given));
        Ok(log)
    }
}

} // verus!
