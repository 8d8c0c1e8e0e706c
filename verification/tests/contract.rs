use nft_contract::{
    CallContext, NFTContractMetadata, NftApproval, NftContract, NftContractMetadata, NftCore,
    NftError, StringMap, TokenMetadata,
};

const ONE_NEAR: u128 = 1_000_000_000_000_000_000_000_000;
const BYTE_COST: u128 = 10_000_000_000_000_000_000;

fn alice() -> String {
    "alice.near".to_string()
}

fn bob() -> String {
    "bob.near".to_string()
}

fn carol() -> String {
    "carol.near".to_string()
}

fn dave() -> String {
    "dave.near".to_string()
}

fn init_nft_contract() -> NftContract {
    NftContract::new_default_metadata(alice())
}

fn no_metadata() -> TokenMetadata {
    TokenMetadata {
        title: None,
        description: None,
        media: None,
        media_hash: None,
        copies: None,
        issued_at: None,
        expires_at: None,
        starts_at: None,
        updated_at: None,
        extra: None,
        reference: None,
        reference_hash: None,
    }
}

fn mint_nft(contract: &mut NftContract, account_id: String, token_id: String) {
    contract.nft_mint(ONE_NEAR, token_id, no_metadata(), account_id, None).unwrap();
}

fn call(predecessor: String, deposit: u128) -> CallContext {
    CallContext {
        predecessor_account_id: predecessor,
        attached_deposit: deposit,
        storage_byte_cost: BYTE_COST,
    }
}

fn royalty_of(entries: &[(&str, u32)]) -> StringMap<u32> {
    let mut royalty = StringMap::new();
    for (account, share) in entries {
        royalty.insert(account.to_string(), *share);
    }
    royalty
}

#[test]
fn test_initialize_metadata() {
    let contract = init_nft_contract();

    let nft_contract_metadata = contract.nft_metadata();
    assert_eq!(nft_contract_metadata.spec, "nft-1.0.0".to_string());
    assert_eq!(nft_contract_metadata.name, "NFT For Learning".to_string());
    assert_eq!(nft_contract_metadata.symbol, "NFL".to_string());
}

#[test]
fn test_mint_nft() {
    let mut contract = init_nft_contract();

    mint_nft(&mut contract, alice(), "token#1".to_string());
    let json_token = contract.nft_token("token#1".to_string());
    assert!(json_token.is_some());
    assert_eq!(json_token.unwrap().owner_id, alice());
}

#[test]
fn default_metadata_has_no_optional_parts() {
    let metadata = init_nft_contract().nft_metadata();
    assert!(metadata.icon.is_none());
    assert!(metadata.base_uri.is_none());
    assert!(metadata.reference.is_none());
    assert!(metadata.reference_hash.is_none());
}

#[test]
fn new_keeps_the_given_metadata() {
    let contract = NftContract::new(
        bob(),
        NFTContractMetadata {
            spec: "nft-1.0.0".to_string(),
            name: "Gallery".to_string(),
            symbol: "GAL".to_string(),
            icon: Some("data:image/svg+xml".to_string()),
            base_uri: None,
            reference: Some("https://example.org/about.json".to_string()),
            reference_hash: Some(vec![1, 2, 3]),
        },
    );
    assert_eq!(contract.owner_id, bob());
    let metadata = contract.nft_metadata();
    assert_eq!(metadata.name, "Gallery");
    assert_eq!(metadata.symbol, "GAL");
    assert_eq!(metadata.icon, Some("data:image/svg+xml".to_string()));
    assert_eq!(metadata.base_uri, None);
    assert_eq!(metadata.reference, Some("https://example.org/about.json".to_string()));
    assert_eq!(metadata.reference_hash, Some(vec![1, 2, 3]));
    assert!(contract.nft_token("t1".to_string()).is_none());
}

#[test]
fn mint_sets_up_an_unapproved_token() {
    let mut contract = init_nft_contract();
    let log = contract
        .nft_mint(
            1,
            "t1".to_string(),
            TokenMetadata { title: Some("First".to_string()), copies: Some(3), ..no_metadata() },
            alice(),
            Some(royalty_of(&[("bob.near", 500)])),
        )
        .unwrap();
    assert_eq!(log.owner_id, alice());
    assert_eq!(log.token_ids, vec!["t1".to_string()]);
    assert_eq!(log.memo, None);

    let token = contract.nft_token("t1".to_string()).unwrap();
    assert_eq!(token.token_id, "t1");
    assert_eq!(token.owner_id, alice());
    assert_eq!(token.metadata.title, Some("First".to_string()));
    assert_eq!(token.metadata.copies, Some(3));
    assert!(token.approved_account_ids.is_empty());
    assert_eq!(token.royalty.len(), 1);
    assert_eq!(token.royalty.get(&bob()), Some(&500));

    let record = contract.tokens_by_id.get(&"t1".to_string()).unwrap();
    assert_eq!(record.next_approval_id, 0);
    assert_eq!(contract.tokens_per_owner.get(&alice()), Some(&vec!["t1".to_string()]));
}

#[test]
fn mint_without_deposit_is_refused() {
    let mut contract = init_nft_contract();
    let res = contract.nft_mint(0, "t1".to_string(), no_metadata(), alice(), None);
    assert_eq!(res.err(), Some(NftError::PaymentRequired));
    assert!(contract.nft_token("t1".to_string()).is_none());
    assert!(contract.tokens_per_owner.is_empty());
}

#[test]
fn mint_of_a_taken_id_is_refused() {
    let mut contract = init_nft_contract();
    mint_nft(&mut contract, alice(), "t1".to_string());
    let res = contract.nft_mint(ONE_NEAR, "t1".to_string(), no_metadata(), bob(), None);
    assert_eq!(res.err(), Some(NftError::TokenExists));
    assert_eq!(contract.nft_token("t1".to_string()).unwrap().owner_id, alice());
    assert!(contract.tokens_per_owner.get(&bob()).is_none());
}

#[test]
fn mint_with_seven_royalties_is_refused_and_six_are_accepted() {
    let mut contract = init_nft_contract();
    let seven = royalty_of(&[
        ("a.near", 100),
        ("b.near", 100),
        ("c.near", 100),
        ("d.near", 100),
        ("e.near", 100),
        ("f.near", 100),
        ("g.near", 100),
    ]);
    let res = contract.nft_mint(ONE_NEAR, "t1".to_string(), no_metadata(), alice(), Some(seven));
    assert_eq!(res.err(), Some(NftError::TooManyRoyalties));
    assert!(contract.nft_token("t1".to_string()).is_none());

    let six = royalty_of(&[
        ("a.near", 100),
        ("b.near", 100),
        ("c.near", 100),
        ("d.near", 100),
        ("e.near", 100),
        ("f.near", 100),
    ]);
    let res = contract.nft_mint(ONE_NEAR, "t1".to_string(), no_metadata(), alice(), Some(six));
    assert!(res.is_ok());
    assert_eq!(contract.nft_token("t1".to_string()).unwrap().royalty.len(), 6);
}

#[test]
fn mint_with_shares_beyond_the_whole_is_refused() {
    let mut contract = init_nft_contract();
    let res = contract.nft_mint(
        ONE_NEAR,
        "t1".to_string(),
        no_metadata(),
        alice(),
        Some(royalty_of(&[("bob.near", 6000), ("carol.near", 4001)])),
    );
    assert_eq!(res.err(), Some(NftError::RoyaltyExceeded));
    assert!(contract.nft_token("t1".to_string()).is_none());

    let res = contract.nft_mint(
        ONE_NEAR,
        "t1".to_string(),
        no_metadata(),
        alice(),
        Some(royalty_of(&[("bob.near", 6000), ("carol.near", 4000)])),
    );
    assert!(res.is_ok());
}

#[test]
fn mint_checks_the_number_of_royalties_before_their_sum() {
    let mut contract = init_nft_contract();
    let seven = royalty_of(&[
        ("a.near", 4000),
        ("b.near", 4000),
        ("c.near", 4000),
        ("d.near", 100),
        ("e.near", 100),
        ("f.near", 100),
        ("g.near", 100),
    ]);
    let res = contract.nft_mint(ONE_NEAR, "t1".to_string(), no_metadata(), alice(), Some(seven));
    assert_eq!(res.err(), Some(NftError::TooManyRoyalties));
}

#[test]
fn token_view_of_an_unknown_id_is_absent() {
    let mut contract = init_nft_contract();
    assert!(contract.nft_token("t1".to_string()).is_none());
    mint_nft(&mut contract, alice(), "t1".to_string());
    assert!(contract.nft_token("t2".to_string()).is_none());
    assert!(contract.nft_token("t1".to_string()).is_some());
}

#[test]
fn tokens_for_owner_are_paged() {
    let mut contract = init_nft_contract();
    for id in ["a", "b", "c", "d"] {
        mint_nft(&mut contract, alice(), id.to_string());
    }
    mint_nft(&mut contract, bob(), "z".to_string());

    let ids = |tokens: Vec<nft_contract::JsonToken>| -> Vec<String> {
        tokens.into_iter().map(|t| t.token_id).collect()
    };
    assert_eq!(ids(contract.nft_tokens_for_owner(alice(), None, Some(10))), ["a", "b", "c", "d"]);
    assert_eq!(ids(contract.nft_tokens_for_owner(alice(), Some(1), Some(2))), ["b", "c"]);
    assert_eq!(ids(contract.nft_tokens_for_owner(alice(), Some(3), Some(2))), ["d"]);
    assert_eq!(ids(contract.nft_tokens_for_owner(alice(), Some(4), Some(2))).len(), 0);
    assert_eq!(ids(contract.nft_tokens_for_owner(alice(), Some(u128::MAX), Some(2))).len(), 0);
    assert_eq!(ids(contract.nft_tokens_for_owner(alice(), None, None)).len(), 0);
    assert_eq!(ids(contract.nft_tokens_for_owner(alice(), Some(0), Some(0))).len(), 0);
    assert_eq!(ids(contract.nft_tokens_for_owner(alice(), None, Some(u64::MAX))).len(), 4);
    assert_eq!(ids(contract.nft_tokens_for_owner(bob(), None, Some(5))), ["z"]);
    assert_eq!(ids(contract.nft_tokens_for_owner(carol(), None, Some(5))).len(), 0);

    let first = contract.nft_tokens_for_owner(alice(), None, Some(1)).pop().unwrap();
    assert_eq!(first.owner_id, alice());
}

#[test]
fn tokens_for_owner_follow_the_index_after_a_transfer() {
    let mut contract = init_nft_contract();
    for id in ["a", "b", "c"] {
        mint_nft(&mut contract, alice(), id.to_string());
    }
    contract.nft_transfer(&call(alice(), 1), bob(), "a".to_string(), None, None).unwrap();
    let ids = |tokens: Vec<nft_contract::JsonToken>| -> Vec<String> {
        tokens.into_iter().map(|t| t.token_id).collect()
    };
    // the last token of the list took the place of the one that left
    assert_eq!(ids(contract.nft_tokens_for_owner(alice(), None, Some(10))), ["c", "b"]);
    assert_eq!(ids(contract.nft_tokens_for_owner(bob(), None, Some(10))), ["a"]);
}

#[test]
fn round_trip_of_an_approved_transfer() {
    let mut contract = init_nft_contract();
    contract
        .nft_mint(
            ONE_NEAR,
            "t1".to_string(),
            no_metadata(),
            alice(),
            Some(royalty_of(&[("bob.near", 500)])),
        )
        .unwrap();

    let approved =
        contract.nft_approve(&call(alice(), ONE_NEAR), "t1".to_string(), carol(), None).unwrap();
    assert_eq!(approved.approval_id, 0);
    assert!(approved.on_approve.is_none());
    assert_eq!(contract.nft_is_approved("t1".to_string(), carol(), Some(0)), Ok(true));

    let done = contract
        .nft_transfer(&call(carol(), 1), dave(), "t1".to_string(), Some(0), Some("gift".to_string()))
        .unwrap();

    let token = contract.nft_token("t1".to_string()).unwrap();
    assert_eq!(token.owner_id, dave());
    assert!(token.approved_account_ids.is_empty());
    assert_eq!(token.royalty.get(&bob()), Some(&500));
    assert_eq!(done.log.authorized_id, Some(carol()));
    assert_eq!(done.log.old_owner_id, alice());
    assert_eq!(done.log.new_owner_id, dave());
    assert_eq!(done.log.token_ids, vec!["t1".to_string()]);
    assert_eq!(done.log.memo, Some("gift".to_string()));
    // the approval of "carol.near" took 10 + 4 + 8 bytes
    assert_eq!(done.refund.account_id, alice());
    assert_eq!(done.refund.amount, 22 * BYTE_COST);

    assert!(contract.tokens_per_owner.get(&alice()).is_none());
    assert_eq!(contract.tokens_per_owner.get(&dave()), Some(&vec!["t1".to_string()]));
    assert_eq!(contract.tokens_by_id.get(&"t1".to_string()).unwrap().next_approval_id, 1);
}
