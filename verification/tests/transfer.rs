use nft_contract::{
    CallContext, NftApproval, NftContract, NftCore, NftError, StringMap, TokenMetadata,
};

const ONE_NEAR: u128 = 1_000_000_000_000_000_000_000_000;
const BYTE_COST: u128 = 10_000_000_000_000_000_000;

fn a() -> String {
    "a.near".to_string()
}

fn b() -> String {
    "b.near".to_string()
}

fn c() -> String {
    "c.near".to_string()
}

fn d() -> String {
    "d.near".to_string()
}

fn t1() -> String {
    "t1".to_string()
}

fn plain() -> TokenMetadata {
    TokenMetadata {
        title: None,
        description: None,
        media: None,
        media_hash: None,
        copies: None,
        issued_at: None,
        expires_at: None,
        starts_at: None,
        updated_at: None,
        extra: None,
        reference: None,
        reference_hash: None,
    }
}

fn from(predecessor: String, deposit: u128) -> CallContext {
    CallContext {
        predecessor_account_id: predecessor,
        attached_deposit: deposit,
        storage_byte_cost: BYTE_COST,
    }
}

/// `t1` of `a.near`, with `c.near` approved under the id 0.
fn with_delegate() -> NftContract {
    let mut contract = NftContract::new_default_metadata(a());
    let mut royalty = StringMap::new();
    royalty.insert(b(), 500u32);
    contract.nft_mint(ONE_NEAR, t1(), plain(), a(), Some(royalty)).unwrap();
    contract.nft_approve(&from(a(), ONE_NEAR), t1(), c(), None).unwrap();
    contract
}

/// Every token is listed under its owner and under no other account, and
/// every listed token exists.
fn index_agrees(contract: &NftContract) -> bool {
    let accounts = contract.tokens_per_owner.keys();
    for token_id in contract.tokens_by_id.keys() {
        let owner = &contract.tokens_by_id.get(&token_id).unwrap().owner_id;
        for account in &accounts {
            let listed = contract.tokens_per_owner.get(account).unwrap().contains(&token_id);
            if listed != (account == owner) {
                return false;
            }
        }
        if !accounts.contains(owner) {
            return false;
        }
    }
    for account in &accounts {
        let list = contract.tokens_per_owner.get(account).unwrap();
        if list.is_empty() {
            return false;
        }
        for token_id in list {
            if contract.tokens_by_id.get(token_id).is_none() {
                return false;
            }
        }
    }
    true
}

#[test]
fn transfer_by_the_owner() {
    let mut contract = with_delegate();
    let done = contract.nft_transfer(&from(a(), 1), d(), t1(), None, None).unwrap();
    assert_eq!(done.log.authorized_id, None);
    assert_eq!(done.log.old_owner_id, a());
    assert_eq!(done.log.new_owner_id, d());
    assert_eq!(done.log.token_ids, vec![t1()]);
    assert_eq!(done.log.memo, None);
    // the approval of "c.near" took 6 + 12 bytes
    assert_eq!(done.refund.account_id, a());
    assert_eq!(done.refund.amount, 18 * BYTE_COST);

    let token = contract.nft_token(t1()).unwrap();
    assert_eq!(token.owner_id, d());
    assert!(token.approved_account_ids.is_empty());
    assert_eq!(token.royalty.get(&b()), Some(&500));
    assert_eq!(contract.tokens_by_id.get(&t1()).unwrap().next_approval_id, 1);
    assert!(index_agrees(&contract));
}

#[test]
fn transfer_by_the_owner_with_an_approval_id_names_no_delegate() {
    let mut contract = with_delegate();
    let done = contract.nft_transfer(&from(a(), 1), d(), t1(), Some(77), None).unwrap();
    assert_eq!(done.log.authorized_id, None);
    assert_eq!(contract.nft_token(t1()).unwrap().owner_id, d());
}

#[test]
fn transfer_of_a_token_without_approvals_refunds_nothing() {
    let mut contract = NftContract::new_default_metadata(a());
    contract.nft_mint(ONE_NEAR, t1(), plain(), a(), None).unwrap();
    let done = contract.nft_transfer(&from(a(), 1), b(), t1(), None, None).unwrap();
    assert_eq!(done.refund.account_id, a());
    assert_eq!(done.refund.amount, 0);
}

#[test]
fn transfer_by_a_delegate_to_itself() {
    let mut contract = with_delegate();
    let done = contract.nft_transfer(&from(c(), 1), c(), t1(), Some(0), None).unwrap();
    assert_eq!(done.log.authorized_id, Some(c()));
    assert_eq!(done.log.new_owner_id, c());
    assert_eq!(contract.nft_token(t1()).unwrap().owner_id, c());
    assert!(index_agrees(&contract));
}

#[test]
fn transfer_asks_for_exactly_one_yocto() {
    let mut contract = with_delegate();
    for deposit in [0, 2, ONE_NEAR] {
        let res = contract.nft_transfer(&from(a(), deposit), d(), t1(), None, None);
        assert_eq!(res.err(), Some(NftError::PaymentExact));
    }
    // the deposit is looked at before the token is
    let res = contract.nft_transfer(&from(a(), 0), d(), "none".to_string(), None, None);
    assert_eq!(res.err(), Some(NftError::PaymentExact));
    assert_eq!(contract.nft_token(t1()).unwrap().owner_id, a());
}

#[test]
fn transfer_of_an_unknown_token_is_refused() {
    let mut contract = with_delegate();
    let res = contract.nft_transfer(&from(a(), 1), d(), "t2".to_string(), None, None);
    assert_eq!(res.err(), Some(NftError::NotFound));
    assert!(index_agrees(&contract));
}

#[test]
fn transfer_by_a_stranger_without_an_id_is_refused() {
    let mut contract = with_delegate();
    let res = contract.nft_transfer(&from(d(), 1), d(), t1(), None, None);
    assert_eq!(res.err(), Some(NftError::ApprovalRequired));
    // so it is for a delegate that names no id
    let res = contract.nft_transfer(&from(c(), 1), d(), t1(), None, None);
    assert_eq!(res.err(), Some(NftError::ApprovalRequired));
    assert_eq!(contract.nft_token(t1()).unwrap().owner_id, a());
}

#[test]
fn transfer_by_a_stranger_with_an_id_is_refused() {
    let mut contract = with_delegate();
    let res = contract.nft_transfer(&from(d(), 1), d(), t1(), Some(0), None);
    assert_eq!(res.err(), Some(NftError::NotApproved));
    assert_eq!(contract.nft_token(t1()).unwrap().owner_id, a());
}

#[test]
fn transfer_by_a_delegate_with_another_id_is_refused() {
    let mut contract = with_delegate();
    let res = contract.nft_transfer(&from(c(), 1), d(), t1(), Some(1), None);
    assert_eq!(res.err(), Some(NftError::NotApproved));
    let token = contract.nft_token(t1()).unwrap();
    assert_eq!(token.owner_id, a());
    assert_eq!(token.approved_account_ids.get(&c()), Some(&0));
}

#[test]
fn transfer_with_a_revoked_id_is_refused() {
    let mut contract = with_delegate();
    contract.nft_revoke(&from(a(), 1), t1(), c()).unwrap();
    let res = contract.nft_transfer(&from(c(), 1), d(), t1(), Some(0), None);
    assert_eq!(res.err(), Some(NftError::NotApproved));
}

#[test]
fn transfer_to_the_owner_is_refused() {
    let mut contract = with_delegate();
    let res = contract.nft_transfer(&from(a(), 1), a(), t1(), None, None);
    assert_eq!(res.err(), Some(NftError::SelfTransfer));
    let res = contract.nft_transfer(&from(c(), 1), a(), t1(), Some(0), None);
    assert_eq!(res.err(), Some(NftError::SelfTransfer));
    // who may not transfer is told so before the receiver is looked at
    let res = contract.nft_transfer(&from(d(), 1), a(), t1(), Some(0), None);
    assert_eq!(res.err(), Some(NftError::NotApproved));
    let token = contract.nft_token(t1()).unwrap();
    assert_eq!(token.owner_id, a());
    assert_eq!(token.approved_account_ids.len(), 1);
    assert!(index_agrees(&contract));
}

#[test]
fn an_approval_id_serves_once() {
    let mut contract = with_delegate();
    contract.nft_transfer(&from(c(), 1), d(), t1(), Some(0), None).unwrap();
    let res = contract.nft_transfer(&from(c(), 1), a(), t1(), Some(0), None);
    assert_eq!(res.err(), Some(NftError::NotApproved));
    assert_eq!(contract.nft_token(t1()).unwrap().owner_id, d());
}

#[test]
fn internal_transfer_hands_back_the_record_as_it_was() {
    let mut contract = with_delegate();
    let done = contract.internal_transfer(&c(), &d(), &t1(), Some(0), Some("m".to_string())).unwrap();
    assert_eq!(done.previous_token.owner_id, a());
    assert_eq!(done.previous_token.next_approval_id, 1);
    assert_eq!(done.previous_token.approved_account_ids.len(), 1);
    assert_eq!(done.previous_token.approved_account_ids.get(&c()), Some(&0));
    assert_eq!(done.previous_token.royalty.get(&b()), Some(&500));
    assert_eq!(done.log.authorized_id, Some(c()));
    assert_eq!(done.log.memo, Some("m".to_string()));
    assert_eq!(contract.transfer_refused(&d(), &a(), &t1(), None), None);
    assert_eq!(contract.transfer_refused(&a(), &d(), &t1(), None), Some(NftError::ApprovalRequired));
}

#[test]
fn the_index_follows_every_transfer() {
    let mut contract = NftContract::new_default_metadata(a());
    for (id, owner) in [("x", a()), ("y", a()), ("z", b()), ("w", a())] {
        contract.nft_mint(ONE_NEAR, id.to_string(), plain(), owner, None).unwrap();
        assert!(index_agrees(&contract));
    }
    let moves = [("x", a(), b()), ("z", b(), c()), ("x", b(), c()), ("y", a(), b()), ("w", a(), d()), ("x", c(), a())];
    for (id, owner, receiver) in moves {
        contract.nft_transfer(&from(owner, 1), receiver.clone(), id.to_string(), None, None).unwrap();
        assert!(index_agrees(&contract));
        assert_eq!(contract.nft_token(id.to_string()).unwrap().owner_id, receiver);
    }
    assert_eq!(contract.tokens_per_owner.len(), 4);
    assert_eq!(contract.tokens_per_owner.get(&a()), Some(&vec!["x".to_string()]));
    assert_eq!(contract.tokens_per_owner.get(&b()), Some(&vec!["y".to_string()]));
    assert_eq!(contract.tokens_per_owner.get(&c()), Some(&vec!["z".to_string()]));
    assert_eq!(contract.tokens_per_owner.get(&d()), Some(&vec!["w".to_string()]));
}

#[test]
fn the_index_drops_the_list_of_an_account_without_tokens() {
    let mut contract = NftContract::new_default_metadata(a());
    contract.nft_mint(ONE_NEAR, t1(), plain(), a(), None).unwrap();
    assert!(contract.tokens_per_owner.contains_key(&a()));
    contract.nft_transfer(&from(a(), 1), b(), t1(), None, None).unwrap();
    assert!(!contract.tokens_per_owner.contains_key(&a()));
    assert_eq!(contract.tokens_per_owner.len(), 1);
}

#[test]
fn index_moves_one_by_one() {
    let mut contract = NftContract::new_default_metadata(a());
    contract.internal_add_token_to_owner(&a(), &"x".to_string());
    contract.internal_add_token_to_owner(&a(), &"y".to_string());
    contract.internal_add_token_to_owner(&a(), &"z".to_string());
    contract.internal_add_token_to_owner(&a(), &"y".to_string());
    assert_eq!(
        contract.tokens_per_owner.get(&a()),
        Some(&vec!["x".to_string(), "y".to_string(), "z".to_string()])
    );
    assert_eq!(contract.internal_remove_token_from_owner(&a(), &"x".to_string()), Ok(()));
    assert_eq!(contract.tokens_per_owner.get(&a()), Some(&vec!["z".to_string(), "y".to_string()]));
    assert_eq!(contract.internal_remove_token_from_owner(&a(), &"y".to_string()), Ok(()));
    assert_eq!(contract.internal_remove_token_from_owner(&a(), &"z".to_string()), Ok(()));
    assert!(contract.tokens_per_owner.is_empty());
}

#[test]
fn index_removal_of_what_is_not_listed_is_an_inconsistency() {
    let mut contract = NftContract::new_default_metadata(a());
    contract.internal_add_token_to_owner(&a(), &"x".to_string());
    assert_eq!(
        contract.internal_remove_token_from_owner(&b(), &"x".to_string()),
        Err(NftError::InconsistentState)
    );
    assert_eq!(
        contract.internal_remove_token_from_owner(&a(), &"y".to_string()),
        Err(NftError::InconsistentState)
    );
    assert_eq!(contract.tokens_per_owner.get(&a()), Some(&vec!["x".to_string()]));
    assert_eq!(contract.tokens_per_owner.len(), 1);
}
