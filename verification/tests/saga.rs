use nft_contract::nft_core::{GAS_FOR_NFT_ON_TRANSFER, GAS_FOR_RESOLVE_TRANSFER};
use nft_contract::{
    CallContext, NftApproval, NftContract, NftCore, NftError, PromiseResult, StringMap,
    TokenMetadata, TransferCall,
};

const ONE_NEAR: u128 = 1_000_000_000_000_000_000_000_000;
const BYTE_COST: u128 = 10_000_000_000_000_000_000;

fn seller() -> String {
    "seller.near".to_string()
}

fn market() -> String {
    "market.near".to_string()
}

fn agent() -> String {
    "agent.near".to_string()
}

fn art() -> String {
    "art-1".to_string()
}

fn bare() -> TokenMetadata {
    TokenMetadata {
        title: None,
        description: None,
        media: None,
        media_hash: None,
        copies: None,
        issued_at: None,
        expires_at: None,
        starts_at: None,
        updated_at: None,
        extra: None,
        reference: None,
        reference_hash: None,
    }
}

fn sent_by(predecessor: String, deposit: u128) -> CallContext {
    CallContext {
        predecessor_account_id: predecessor,
        attached_deposit: deposit,
        storage_byte_cost: BYTE_COST,
    }
}

/// `art-1` of `seller.near`, with `agent.near` approved under 0 and
/// `market.near` under 1.
fn listed() -> NftContract {
    let mut contract = NftContract::new_default_metadata(seller());
    contract.nft_mint(ONE_NEAR, art(), bare(), seller(), None).unwrap();
    contract.nft_approve(&sent_by(seller(), ONE_NEAR), art(), agent(), None).unwrap();
    contract.nft_approve(&sent_by(seller(), ONE_NEAR), art(), market(), None).unwrap();
    contract
}

fn sent() -> (NftContract, TransferCall) {
    let mut contract = listed();
    let plan = contract
        .nft_transfer_call(
            &sent_by(agent(), 1),
            market(),
            art(),
            Some(0),
            Some("on sale".to_string()),
            "{\"price\":\"5\"}".to_string(),
        )
        .unwrap();
    (contract, plan)
}

fn resolve(
    contract: &mut NftContract,
    plan: &TransferCall,
    results: Vec<PromiseResult>,
) -> Result<nft_contract::Resolved, NftError> {
    contract.nft_resolve_transfer(
        &results,
        BYTE_COST,
        plan.resolve.authorized_id.clone(),
        plan.resolve.owner_id.clone(),
        plan.resolve.receiver_id.clone(),
        plan.resolve.token_id.clone(),
        plan.resolve.approved_account_ids.clone(),
        plan.resolve.memo.clone(),
    )
}

fn owner_of(contract: &NftContract) -> String {
    contract.nft_token(art()).unwrap().owner_id
}

#[test]
fn transfer_call_moves_the_token_at_once_and_plans_the_rest() {
    let (contract, plan) = sent();
    let token = contract.nft_token(art()).unwrap();
    assert_eq!(token.owner_id, market());
    assert!(token.approved_account_ids.is_empty());
    assert_eq!(contract.tokens_per_owner.get(&market()), Some(&vec![art()]));
    assert!(contract.tokens_per_owner.get(&seller()).is_none());

    assert_eq!(plan.log.authorized_id, Some(agent()));
    assert_eq!(plan.log.old_owner_id, seller());
    assert_eq!(plan.log.new_owner_id, market());
    assert_eq!(plan.log.token_ids, vec![art()]);
    assert_eq!(plan.log.memo, Some("on sale".to_string()));

    assert_eq!(plan.on_transfer.receiver_id, market());
    assert_eq!(plan.on_transfer.gas, 10_000_000_000_000);
    assert_eq!(plan.on_transfer.gas, GAS_FOR_NFT_ON_TRANSFER);
    assert_eq!(plan.on_transfer.sender_id, agent());
    assert_eq!(plan.on_transfer.previous_owner_id, seller());
    assert_eq!(plan.on_transfer.token_id, art());
    assert_eq!(plan.on_transfer.msg, "{\"price\":\"5\"}");

    assert_eq!(plan.resolve.gas, 25_000_000_000_000);
    assert_eq!(plan.resolve.gas, GAS_FOR_RESOLVE_TRANSFER);
    assert_eq!(plan.resolve.authorized_id, Some(agent()));
    assert_eq!(plan.resolve.owner_id, seller());
    assert_eq!(plan.resolve.receiver_id, market());
    assert_eq!(plan.resolve.token_id, art());
    assert_eq!(plan.resolve.approved_account_ids.keys(), vec![agent(), market()]);
    assert_eq!(plan.resolve.approved_account_ids.get(&agent()), Some(&0));
    assert_eq!(plan.resolve.approved_account_ids.get(&market()), Some(&1));
    assert_eq!(plan.resolve.memo, Some("on sale".to_string()));
}

#[test]
fn transfer_call_by_the_owner_names_no_delegate() {
    let mut contract = listed();
    let plan = contract
        .nft_transfer_call(&sent_by(seller(), 1), market(), art(), None, None, String::new())
        .unwrap();
    assert_eq!(plan.log.authorized_id, None);
    assert_eq!(plan.resolve.authorized_id, None);
    assert_eq!(plan.on_transfer.sender_id, seller());
    assert_eq!(plan.on_transfer.previous_owner_id, seller());
    assert_eq!(plan.resolve.memo, None);
}

#[test]
fn transfer_call_without_its_fee_is_refused() {
    let mut contract = listed();
    for deposit in [0, 2, ONE_NEAR] {
        let res = contract.nft_transfer_call(
            &sent_by(agent(), deposit),
            market(),
            art(),
            Some(0),
            None,
            String::new(),
        );
        assert_eq!(res.err(), Some(NftError::FeeRequired));
    }
    assert_eq!(owner_of(&contract), seller());
}

#[test]
fn transfer_call_is_refused_as_a_transfer_is() {
    let mut contract = listed();
    let mut attempt = |caller: String, receiver: String, token: String, id: Option<u64>| {
        contract
            .nft_transfer_call(&sent_by(caller, 1), receiver, token, id, None, String::new())
            .err()
    };
    assert_eq!(attempt(agent(), market(), "none".to_string(), Some(0)), Some(NftError::NotFound));
    assert_eq!(attempt(agent(), market(), art(), None), Some(NftError::ApprovalRequired));
    assert_eq!(attempt(agent(), market(), art(), Some(1)), Some(NftError::NotApproved));
    assert_eq!(attempt("x.near".to_string(), market(), art(), Some(0)), Some(NftError::NotApproved));
    assert_eq!(attempt(agent(), seller(), art(), Some(0)), Some(NftError::SelfTransfer));
    assert_eq!(owner_of(&contract), seller());
}

#[test]
fn a_failed_receiver_gets_the_token_sent_back() {
    let (mut contract, plan) = sent();
    let done = resolve(&mut contract, &plan, vec![PromiseResult::Failed]).unwrap();
    assert!(done.returned);

    let token = contract.nft_token(art()).unwrap();
    assert_eq!(token.owner_id, seller());
    assert_eq!(token.approved_account_ids.keys(), vec![agent(), market()]);
    assert_eq!(token.approved_account_ids.get(&agent()), Some(&0));
    assert_eq!(token.approved_account_ids.get(&market()), Some(&1));
    assert_eq!(contract.tokens_by_id.get(&art()).unwrap().next_approval_id, 2);
    assert_eq!(contract.tokens_per_owner.get(&seller()), Some(&vec![art()]));
    assert!(contract.tokens_per_owner.get(&market()).is_none());

    assert_eq!(done.log.authorized_id, Some(agent()));
    assert_eq!(done.log.old_owner_id, market());
    assert_eq!(done.log.new_owner_id, seller());
    assert_eq!(done.log.token_ids, vec![art()]);
    assert_eq!(done.log.memo, Some("on sale".to_string()));

    let refund = done.refund.unwrap();
    assert_eq!(refund.account_id, seller());
    // "agent.near" and "market.near": 10 + 12 and 11 + 12 bytes
    assert_eq!(refund.amount, (22 + 23) * BYTE_COST);
}

#[test]
fn a_receiver_that_answers_true_gets_the_token_sent_back() {
    for answer in ["true", " true", "true\n", "\t\r\n true \n"] {
        let (mut contract, plan) = sent();
        let done = resolve(
            &mut contract,
            &plan,
            vec![PromiseResult::Successful(answer.as_bytes().to_vec())],
        )
        .unwrap();
        assert!(done.returned, "{:?}", answer);
        assert_eq!(owner_of(&contract), seller());
        assert!(done.refund.is_some());
    }
}

#[test]
fn a_receiver_that_answers_false_keeps_the_token() {
    let (mut contract, plan) = sent();
    let done =
        resolve(&mut contract, &plan, vec![PromiseResult::Successful(b"false".to_vec())]).unwrap();
    assert!(!done.returned);
    assert!(done.refund.is_none());
    let token = contract.nft_token(art()).unwrap();
    assert_eq!(token.owner_id, market());
    assert!(token.approved_account_ids.is_empty());
    assert_eq!(contract.tokens_per_owner.get(&market()), Some(&vec![art()]));
    // the record of the transfer as it was made
    assert_eq!(done.log.authorized_id, Some(agent()));
    assert_eq!(done.log.old_owner_id, seller());
    assert_eq!(done.log.new_owner_id, market());
    assert_eq!(done.log.token_ids, vec![art()]);
    assert_eq!(done.log.memo, Some("on sale".to_string()));
}

#[test]
fn an_answer_that_is_no_truth_value_counts_as_acknowledged() {
    let answers: [&[u8]; 12] = [
        b"",
        b" ",
        b"null",
        b"1",
        b"\"true\"",
        b"True",
        b"TRUE",
        b"tru",
        b"truee",
        b"true false",
        b"[true]",
        b"\xfftrue",
    ];
    for answer in answers {
        let (mut contract, plan) = sent();
        let done =
            resolve(&mut contract, &plan, vec![PromiseResult::Successful(answer.to_vec())]).unwrap();
        assert!(!done.returned, "{:?}", answer);
        assert!(done.refund.is_none());
        assert_eq!(owner_of(&contract), market());
    }
}

#[test]
fn resolution_asks_for_exactly_one_result() {
    let (mut contract, plan) = sent();
    let res = resolve(&mut contract, &plan, vec![]);
    assert_eq!(res.err(), Some(NftError::ProtocolViolation));
    let res = resolve(&mut contract, &plan, vec![PromiseResult::Failed, PromiseResult::Failed]);
    assert_eq!(res.err(), Some(NftError::ProtocolViolation));
    let res = resolve(
        &mut contract,
        &plan,
        vec![PromiseResult::Successful(b"false".to_vec()), PromiseResult::Failed],
    );
    assert_eq!(res.err(), Some(NftError::ProtocolViolation));
    assert_eq!(owner_of(&contract), market());
    assert!(contract.nft_token(art()).unwrap().approved_account_ids.is_empty());
}

#[test]
fn resolving_twice_moves_and_refunds_once() {
    let (mut contract, plan) = sent();
    let first = resolve(&mut contract, &plan, vec![PromiseResult::Failed]).unwrap();
    assert!(first.returned);
    assert!(first.refund.is_some());

    let second = resolve(&mut contract, &plan, vec![PromiseResult::Failed]).unwrap();
    assert!(!second.returned);
    assert!(second.refund.is_none());
    let token = contract.nft_token(art()).unwrap();
    assert_eq!(token.owner_id, seller());
    assert_eq!(token.approved_account_ids.keys(), vec![agent(), market()]);
    assert_eq!(contract.tokens_per_owner.get(&seller()), Some(&vec![art()]));
    assert_eq!(contract.tokens_per_owner.len(), 1);
}

#[test]
fn resolving_an_acknowledged_transfer_twice_changes_nothing() {
    let (mut contract, plan) = sent();
    for _ in 0..2 {
        let done = resolve(&mut contract, &plan, vec![PromiseResult::Successful(b"false".to_vec())])
            .unwrap();
        assert!(!done.returned);
        assert!(done.refund.is_none());
        assert_eq!(owner_of(&contract), market());
        assert!(contract.nft_token(art()).unwrap().approved_account_ids.is_empty());
    }
}

#[test]
fn a_token_that_the_receiver_passed_on_is_not_sent_back() {
    let (mut contract, plan) = sent();
    contract
        .nft_transfer(&sent_by(market(), 1), "buyer.near".to_string(), art(), None, None)
        .unwrap();
    let done = resolve(&mut contract, &plan, vec![PromiseResult::Failed]).unwrap();
    assert!(!done.returned);
    assert!(done.refund.is_none());
    assert_eq!(owner_of(&contract), "buyer.near");
    assert_eq!(contract.tokens_per_owner.get(&"buyer.near".to_string()), Some(&vec![art()]));
}

#[test]
fn resolution_for_an_unknown_token_changes_nothing() {
    let mut contract = listed();
    let done = contract
        .nft_resolve_transfer(
            &vec![PromiseResult::Failed],
            BYTE_COST,
            None,
            seller(),
            market(),
            "none".to_string(),
            StringMap::new(),
            None,
        )
        .unwrap();
    assert!(!done.returned);
    assert!(done.refund.is_none());
    assert_eq!(owner_of(&contract), seller());
    assert!(contract.nft_token("none".to_string()).is_none());
}

#[test]
fn approvals_that_the_token_never_gave_are_not_restored() {
    let (mut contract, plan) = sent();
    let mut forged = StringMap::new();
    forged.insert(agent(), 2u64);
    let res = contract.nft_resolve_transfer(
        &vec![PromiseResult::Failed],
        BYTE_COST,
        None,
        plan.resolve.owner_id.clone(),
        plan.resolve.receiver_id.clone(),
        plan.resolve.token_id.clone(),
        forged,
        None,
    );
    assert_eq!(res.err(), Some(NftError::InconsistentState));
    assert_eq!(owner_of(&contract), market());
    assert!(contract.nft_token(art()).unwrap().approved_account_ids.is_empty());

    // where the transfer stands, the approvals are not looked at
    let mut forged = StringMap::new();
    forged.insert(agent(), 2u64);
    let done = contract
        .nft_resolve_transfer(
            &vec![PromiseResult::Successful(b"false".to_vec())],
            BYTE_COST,
            None,
            plan.resolve.owner_id.clone(),
            plan.resolve.receiver_id.clone(),
            plan.resolve.token_id.clone(),
            forged,
            None,
        )
        .unwrap();
    assert!(!done.returned);
}

#[test]
fn a_returned_token_can_be_approved_and_sent_again() {
    let (mut contract, plan) = sent();
    resolve(&mut contract, &plan, vec![PromiseResult::Failed]).unwrap();
    // the approvals are those of before, under their ids
    assert_eq!(contract.nft_is_approved(art(), agent(), Some(0)), Ok(true));
    let next = contract
        .nft_approve(&sent_by(seller(), ONE_NEAR), art(), "late.near".to_string(), None)
        .unwrap();
    assert_eq!(next.approval_id, 2);
    contract.nft_transfer(&sent_by(agent(), 1), market(), art(), Some(0), None).unwrap();
    assert_eq!(owner_of(&contract), market());
}
