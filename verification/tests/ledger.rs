use book_ledger::error::ContractError;
use book_ledger::execute_approve;
use book_ledger::execute_approve_all;
use book_ledger::execute_burn;
use book_ledger::execute_mint;
use book_ledger::execute_revoke;
use book_ledger::execute_revoke_all;
use book_ledger::execute_send_nft;
use book_ledger::execute_transfer_nft;
use book_ledger::instantiate;
use book_ledger::auth::can_act;
use book_ledger::msg::InstantiateMsg;
use book_ledger::queries::query_approvals;
use book_ledger::queries::query_num_tokens;
use book_ledger::queries::query_nft_info;
use book_ledger::queries::query_owner_of;
use book_ledger::state::Metadata;
use book_ledger::state::State;
use book_ledger::BlockInfo;
use book_ledger::Expiration;

fn fresh() -> State {
    let (state, _resp) = instantiate(InstantiateMsg {
        name: "Library".to_string(),
        symbol: "LIB".to_string(),
        minter: "admin".to_string(),
    });
    state
}

fn env() -> BlockInfo {
    BlockInfo { height: 100, time: 1_000_000 }
}

fn meta(title: &str) -> Metadata {
    Metadata {
        title: title.to_string(),
        author: "someone".to_string(),
        url: "ipfs://x".to_string(),
    }
}

fn mint(state: &mut State, id: &str, owner: &str) {
    let sender = "admin".to_string();
    execute_mint(state, &env(), &sender, id.to_string(), owner.to_string(), meta(id)).unwrap();
}

#[test]
fn mint_and_owner_of() {
    let mut state = fresh();
    mint(&mut state, "book-1", "alice");
    let resp = query_owner_of(&state, &env(), "book-1".to_string(), None).unwrap();
    assert_eq!(resp.owner, "alice".to_string());
    assert!(resp.approvals.is_empty());
    assert_eq!(query_num_tokens(&state).count, 1);
    let info = query_nft_info(&state, "book-1".to_string()).unwrap();
    assert_eq!(info.extension.title, "book-1".to_string());
    assert!(info.token_uri.is_none());
}

#[test]
fn mint_collision_fails_claimed_and_changes_nothing() {
    let mut state = fresh();
    mint(&mut state, "book-1", "alice");
    let sender = "admin".to_string();
    let err = execute_mint(
        &mut state,
        &env(),
        &sender,
        "book-1".to_string(),
        "mallory".to_string(),
        meta("other"),
    )
    .unwrap_err();
    assert_eq!(err, ContractError::Claimed);
    // the prior record and the count are untouched
    assert_eq!(query_num_tokens(&state).count, 1);
    let resp = query_owner_of(&state, &env(), "book-1".to_string(), None).unwrap();
    assert_eq!(resp.owner, "alice".to_string());
}

#[test]
fn burn_removes_token_and_decrements_count() {
    let mut state = fresh();
    mint(&mut state, "book-1", "alice");
    mint(&mut state, "book-2", "alice");
    assert_eq!(query_num_tokens(&state).count, 2);
    let alice = "alice".to_string();
    execute_burn(&mut state, &env(), &alice, "book-1".to_string()).unwrap();
    assert_eq!(query_num_tokens(&state).count, 1);
    let err = query_owner_of(&state, &env(), "book-1".to_string(), None).unwrap_err();
    assert_eq!(err, ContractError::TokenNotFound);
}

#[test]
fn burn_is_owner_exclusive() {
    let mut state = fresh();
    mint(&mut state, "book-1", "alice");
    // even an approved spender may not burn
    let alice = "alice".to_string();
    execute_approve(&mut state, &env(), &alice, "bob".to_string(), "book-1".to_string(), None)
        .unwrap();
    let bob = "bob".to_string();
    let err = execute_burn(&mut state, &env(), &bob, "book-1".to_string()).unwrap_err();
    assert_eq!(err, ContractError::Unauthorized);
    assert_eq!(query_num_tokens(&state).count, 1);
}

#[test]
fn transfer_resets_approvals_and_sets_owner() {
    let mut state = fresh();
    mint(&mut state, "book-1", "alice");
    let alice = "alice".to_string();
    execute_approve(&mut state, &env(), &alice, "bob".to_string(), "book-1".to_string(), None)
        .unwrap();
    execute_transfer_nft(&mut state, &env(), &alice, "carol".to_string(), "book-1".to_string())
        .unwrap();
    let resp = query_owner_of(&state, &env(), "book-1".to_string(), None).unwrap();
    assert_eq!(resp.owner, "carol".to_string());
    assert!(resp.approvals.is_empty());
}

#[test]
fn approved_spender_can_transfer_once() {
    let mut state = fresh();
    mint(&mut state, "book-1", "alice");
    let alice = "alice".to_string();
    execute_approve(&mut state, &env(), &alice, "bob".to_string(), "book-1".to_string(), None)
        .unwrap();
    let bob = "bob".to_string();
    // bob acts through his approval
    execute_transfer_nft(&mut state, &env(), &bob, "carol".to_string(), "book-1".to_string())
        .unwrap();
    let resp = query_owner_of(&state, &env(), "book-1".to_string(), None).unwrap();
    assert_eq!(resp.owner, "carol".to_string());
    assert!(resp.approvals.is_empty());
    // the approval did not survive the transfer
    let err = execute_transfer_nft(
        &mut state,
        &env(),
        &bob,
        "mallory".to_string(),
        "book-1".to_string(),
    )
    .unwrap_err();
    assert_eq!(err, ContractError::Unauthorized);
}

#[test]
fn transfer_of_unknown_token_fails_not_found() {
    let mut state = fresh();
    let alice = "alice".to_string();
    let err = execute_transfer_nft(&mut state, &env(), &alice, "bob".to_string(), "nope".to_string())
        .unwrap_err();
    assert_eq!(err, ContractError::TokenNotFound);
}

#[test]
fn stranger_cannot_transfer() {
    let mut state = fresh();
    mint(&mut state, "book-1", "alice");
    let mallory = "mallory".to_string();
    let err = execute_transfer_nft(
        &mut state,
        &env(),
        &mallory,
        "mallory".to_string(),
        "book-1".to_string(),
    )
    .unwrap_err();
    assert_eq!(err, ContractError::Unauthorized);
}

#[test]
fn approving_twice_keeps_one_record_with_latest_expiration() {
    let mut state = fresh();
    mint(&mut state, "book-1", "alice");
    let alice = "alice".to_string();
    execute_approve(
        &mut state,
        &env(),
        &alice,
        "bob".to_string(),
        "book-1".to_string(),
        Some(Expiration::AtHeight(500)),
    )
    .unwrap();
    execute_approve(
        &mut state,
        &env(),
        &alice,
        "bob".to_string(),
        "book-1".to_string(),
        Some(Expiration::AtHeight(900)),
    )
    .unwrap();
    let resp = query_approvals(&state, &env(), "book-1".to_string(), Some(true)).unwrap();
    assert_eq!(resp.approvals.len(), 1);
    assert_eq!(resp.approvals[0].spender, "bob".to_string());
    assert_eq!(resp.approvals[0].expires, Expiration::AtHeight(900));
}

#[test]
fn only_owner_may_approve_or_revoke() {
    let mut state = fresh();
    mint(&mut state, "book-1", "alice");
    let alice = "alice".to_string();
    execute_approve(&mut state, &env(), &alice, "bob".to_string(), "book-1".to_string(), None)
        .unwrap();
    // an approved spender may not re-delegate
    let bob = "bob".to_string();
    let err = execute_approve(
        &mut state,
        &env(),
        &bob,
        "carol".to_string(),
        "book-1".to_string(),
        None,
    )
    .unwrap_err();
    assert_eq!(err, ContractError::Unauthorized);
    let err = execute_revoke(&mut state, &env(), &bob, "bob".to_string(), "book-1".to_string())
        .unwrap_err();
    assert_eq!(err, ContractError::Unauthorized);
}

#[test]
fn revoke_removes_approval_and_absent_revoke_is_noop() {
    let mut state = fresh();
    mint(&mut state, "book-1", "alice");
    let alice = "alice".to_string();
    execute_approve(&mut state, &env(), &alice, "bob".to_string(), "book-1".to_string(), None)
        .unwrap();
    execute_revoke(&mut state, &env(), &alice, "bob".to_string(), "book-1".to_string()).unwrap();
    let resp = query_approvals(&state, &env(), "book-1".to_string(), Some(true)).unwrap();
    assert!(resp.approvals.is_empty());
    // revoking an approval that does not exist is a silent no-op
    execute_revoke(&mut state, &env(), &alice, "nobody".to_string(), "book-1".to_string()).unwrap();
}

#[test]
fn expired_approval_does_not_authorize() {
    let mut state = fresh();
    mint(&mut state, "book-1", "alice");
    let alice = "alice".to_string();
    // expires at height 50; the chain is at height 100 already
    execute_approve(
        &mut state,
        &env(),
        &alice,
        "bob".to_string(),
        "book-1".to_string(),
        Some(Expiration::AtHeight(50)),
    )
    .unwrap();
    let bob = "bob".to_string();
    let err = execute_transfer_nft(&mut state, &env(), &bob, "bob".to_string(), "book-1".to_string())
        .unwrap_err();
    assert_eq!(err, ContractError::Unauthorized);
    // the same grant works while the chain is still below the height
    let early = BlockInfo { height: 10, time: 1 };
    execute_transfer_nft(&mut state, &early, &bob, "bob".to_string(), "book-1".to_string())
        .unwrap();
}

#[test]
fn can_act_owner_and_stranger() {
    let mut state = fresh();
    mint(&mut state, "book-1", "alice");
    let token = state.tokens.get(&"book-1".to_string()).unwrap();
    assert!(can_act(&"alice".to_string(), token, &state.operators, &env()));
    assert!(!can_act(&"mallory".to_string(), token, &state.operators, &env()));
}

#[test]
fn operator_grant_authorizes_until_revoked() {
    let mut state = fresh();
    mint(&mut state, "book-1", "alice");
    let alice = "alice".to_string();
    execute_approve_all(&mut state, &env(), &alice, "oscar".to_string(), None).unwrap();
    let token = state.tokens.get(&"book-1".to_string()).unwrap();
    assert!(can_act(&"oscar".to_string(), token, &state.operators, &env()));
    let oscar = "oscar".to_string();
    execute_transfer_nft(&mut state, &env(), &oscar, "bob".to_string(), "book-1".to_string())
        .unwrap();
    // bob owns it now; alice's operator has no say over bob's tokens
    let err = execute_transfer_nft(&mut state, &env(), &oscar, "x".to_string(), "book-1".to_string())
        .unwrap_err();
    assert_eq!(err, ContractError::Unauthorized);
    // give it back to alice, then revoke the operator: no authority is left
    let bob = "bob".to_string();
    execute_transfer_nft(&mut state, &env(), &bob, "alice".to_string(), "book-1".to_string())
        .unwrap();
    execute_revoke_all(&mut state, &env(), &alice, "oscar".to_string()).unwrap();
    let err = execute_transfer_nft(&mut state, &env(), &oscar, "x".to_string(), "book-1".to_string())
        .unwrap_err();
    assert_eq!(err, ContractError::Unauthorized);
}

#[test]
fn expired_operator_grant_does_not_authorize() {
    let mut state = fresh();
    mint(&mut state, "book-1", "alice");
    let alice = "alice".to_string();
    execute_approve_all(
        &mut state,
        &env(),
        &alice,
        "oscar".to_string(),
        Some(Expiration::AtTime(5)),
    )
    .unwrap();
    // env().time is far past 5
    let oscar = "oscar".to_string();
    let err = execute_transfer_nft(&mut state, &env(), &oscar, "x".to_string(), "book-1".to_string())
        .unwrap_err();
    assert_eq!(err, ContractError::Unauthorized);
}

#[test]
fn send_nft_forwards_payload_after_transfer() {
    let mut state = fresh();
    mint(&mut state, "book-1", "alice");
    let alice = "alice".to_string();
    let resp = execute_send_nft(
        &mut state,
        &env(),
        &alice,
        "some-contract".to_string(),
        "book-1".to_string(),
        vec![1, 2, 3],
    )
    .unwrap();
    let fwd = resp.forward.unwrap();
    assert_eq!(fwd.contract_addr, "some-contract".to_string());
    assert_eq!(fwd.msg, vec![1, 2, 3]);
    let owner = query_owner_of(&state, &env(), "book-1".to_string(), None).unwrap();
    assert_eq!(owner.owner, "some-contract".to_string());
}

#[test]
fn include_expired_controls_approval_visibility() {
    let mut state = fresh();
    mint(&mut state, "book-1", "alice");
    let alice = "alice".to_string();
    execute_approve(
        &mut state,
        &env(),
        &alice,
        "bob".to_string(),
        "book-1".to_string(),
        Some(Expiration::AtHeight(50)),
    )
    .unwrap();
    let hidden = query_approvals(&state, &env(), "book-1".to_string(), None).unwrap();
    assert!(hidden.approvals.is_empty());
    let shown = query_approvals(&state, &env(), "book-1".to_string(), Some(true)).unwrap();
    assert_eq!(shown.approvals.len(), 1);
}

#[test]
fn dispatcher_routes_standard_messages() {
    let mut state = fresh();
    let admin = "admin".to_string();
    book_ledger::execute(
        &mut state,
        &env(),
        &admin,
        book_ledger::msg::ExecuteMsg::Mint {
            token_id: "book-1".to_string(),
            owner: "alice".to_string(),
            metadata: meta("book-1"),
        },
    )
    .unwrap();
    let alice = "alice".to_string();
    book_ledger::execute(
        &mut state,
        &env(),
        &alice,
        book_ledger::msg::ExecuteMsg::TransferNft {
            recipient: "bob".to_string(),
            token_id: "book-1".to_string(),
        },
    )
    .unwrap();
    let answer = book_ledger::query(
        &state,
        &env(),
        book_ledger::msg::QueryMsg::OwnerOf { token_id: "book-1".to_string(), include_expired: None },
    )
    .unwrap();
    match answer {
        book_ledger::msg::QueryAnswer::OwnerOf(resp) => {
            assert_eq!(resp.owner, "bob".to_string());
            assert!(resp.approvals.is_empty());
        }
        other => panic!("unexpected answer: {:?}", other),
    }
}

#[test]
fn wf_checker_accepts_library_states() {
    let mut state = fresh();
    assert!(state.check_wf());
    mint(&mut state, "book-2", "alice");
    mint(&mut state, "book-1", "bob");
    let alice = "alice".to_string();
    execute_approve(&mut state, &env(), &alice, "bob".to_string(), "book-2".to_string(), None)
        .unwrap();
    execute_approve_all(&mut state, &env(), &alice, "oscar".to_string(), None).unwrap();
    assert!(state.check_wf());
}

#[test]
fn wf_checker_rejects_malformed_states() {
    let mut state = fresh();
    // borrower entries out of ascending key order
    state.borrowers = book_ledger::strmap::StrMap {
        entries: vec![
            ("zeta".to_string(), "dora".to_string()),
            ("alpha".to_string(), "evan".to_string()),
        ],
    };
    assert!(!state.check_wf());
    // duplicate spender records within one token
    let mut state = fresh();
    mint(&mut state, "book-1", "alice");
    let mut entries = state.tokens.entries;
    entries[0].1.approvals = vec![
        book_ledger::state::Approval {
            spender: "bob".to_string(),
            expires: Expiration::Never,
        },
        book_ledger::state::Approval {
            spender: "bob".to_string(),
            expires: Expiration::AtHeight(5),
        },
    ];
    state.tokens = book_ledger::strmap::StrMap { entries };
    assert!(!state.check_wf());
}

#[test]
fn dispatcher_keeps_the_forwarded_payload() {
    let mut state = fresh();
    mint(&mut state, "book-1", "alice");
    let alice = "alice".to_string();
    let resp = book_ledger::execute(
        &mut state,
        &env(),
        &alice,
        book_ledger::msg::ExecuteMsg::SendNft {
            contract: "some-contract".to_string(),
            token_id: "book-1".to_string(),
            msg: vec![9, 8, 7],
        },
    )
    .unwrap();
    let fwd = resp.forward.unwrap();
    assert_eq!(fwd.contract_addr, "some-contract".to_string());
    assert_eq!(fwd.msg, vec![9, 8, 7]);
    // the plain transfer forwards nothing
    let carol = "some-contract".to_string();
    let resp = book_ledger::execute(
        &mut state,
        &env(),
        &carol,
        book_ledger::msg::ExecuteMsg::TransferNft {
            recipient: "alice".to_string(),
            token_id: "book-1".to_string(),
        },
    )
    .unwrap();
    assert!(resp.forward.is_none());
}
