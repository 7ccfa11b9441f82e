use book_ledger::error::ContractError;
use book_ledger::execute_approve_all;
use book_ledger::execute_mint;
use book_ledger::instantiate;
use book_ledger::msg::InstantiateMsg;
use book_ledger::queries::query_all_operators;
use book_ledger::queries::query_all_tokens;
use book_ledger::queries::query_approval;
use book_ledger::queries::query_contract_info;
use book_ledger::queries::query_tokens;
use book_ledger::state::Metadata;
use book_ledger::state::State;
use book_ledger::BlockInfo;
use book_ledger::Expiration;

fn env() -> BlockInfo {
    BlockInfo { height: 100, time: 1_000_000 }
}

fn state_with_tokens(n: usize) -> State {
    let (mut state, _resp) = instantiate(InstantiateMsg {
        name: "Library".to_string(),
        symbol: "LIB".to_string(),
        minter: "admin".to_string(),
    });
    let sender = "admin".to_string();
    for i in 0..n {
        let id = format!("id-{:03}", i);
        let owner = if i % 2 == 0 { "alice" } else { "bob" };
        let metadata = Metadata {
            title: id.clone(),
            author: "a".to_string(),
            url: "u".to_string(),
        };
        execute_mint(&mut state, &env(), &sender, id, owner.to_string(), metadata).unwrap();
    }
    state
}

#[test]
fn all_tokens_pages_cover_everything_once() {
    let state = state_with_tokens(25);
    let mut seen: Vec<String> = Vec::new();
    let mut cursor: Option<String> = None;
    loop {
        let page = query_all_tokens(&state, cursor.clone(), Some(7)).unwrap().tokens;
        if page.is_empty() {
            break;
        }
        assert!(page.len() <= 7);
        cursor = Some(page.last().unwrap().clone());
        seen.extend(page);
    }
    assert_eq!(seen.len(), 25);
    // ascending, no duplicates, no omissions
    let expected: Vec<String> = (0..25).map(|i| format!("id-{:03}", i)).collect();
    assert_eq!(seen, expected);
}

#[test]
fn limit_is_clamped_to_thirty() {
    let state = state_with_tokens(40);
    let page = query_all_tokens(&state, None, Some(1000)).unwrap().tokens;
    assert_eq!(page.len(), 30);
}

#[test]
fn limit_zero_still_returns_one() {
    let state = state_with_tokens(5);
    let page = query_all_tokens(&state, None, Some(0)).unwrap().tokens;
    assert_eq!(page.len(), 1);
}

#[test]
fn default_limit_is_ten() {
    let state = state_with_tokens(15);
    let page = query_all_tokens(&state, None, None).unwrap().tokens;
    assert_eq!(page.len(), 10);
}

#[test]
fn start_after_is_exclusive() {
    let state = state_with_tokens(5);
    let page = query_all_tokens(&state, Some("id-002".to_string()), None).unwrap().tokens;
    assert_eq!(page, vec!["id-003".to_string(), "id-004".to_string()]);
}

#[test]
fn tokens_by_owner_filters_and_pages() {
    let state = state_with_tokens(10);
    // alice owns the even ids
    let page = query_tokens(&state, "alice".to_string(), None, Some(3)).unwrap().tokens;
    assert_eq!(
        page,
        vec!["id-000".to_string(), "id-002".to_string(), "id-004".to_string()]
    );
    let next = query_tokens(&state, "alice".to_string(), Some("id-004".to_string()), Some(3))
        .unwrap()
        .tokens;
    assert_eq!(next, vec!["id-006".to_string(), "id-008".to_string()]);
}

#[test]
fn all_operators_pages_and_filters_expired() {
    let (mut state, _resp) = instantiate(InstantiateMsg {
        name: "Library".to_string(),
        symbol: "LIB".to_string(),
        minter: "admin".to_string(),
    });
    let alice = "alice".to_string();
    execute_approve_all(&mut state, &env(), &alice, "op-a".to_string(), None).unwrap();
    execute_approve_all(
        &mut state,
        &env(),
        &alice,
        "op-b".to_string(),
        Some(Expiration::AtHeight(50)),
    )
    .unwrap();
    execute_approve_all(&mut state, &env(), &alice, "op-c".to_string(), None).unwrap();
    // height 100: op-b is expired and filtered out by default
    let ops = query_all_operators(&state, &env(), "alice".to_string(), None, None, None)
        .unwrap()
        .operators;
    let names: Vec<String> = ops.iter().map(|a| a.spender.clone()).collect();
    assert_eq!(names, vec!["op-a".to_string(), "op-c".to_string()]);
    // include_expired shows all three
    let all = query_all_operators(&state, &env(), "alice".to_string(), Some(true), None, None)
        .unwrap()
        .operators;
    assert_eq!(all.len(), 3);
    // cursor pagination over the operator keys
    let page =
        query_all_operators(&state, &env(), "alice".to_string(), Some(true), None, Some(2))
            .unwrap()
            .operators;
    assert_eq!(page.len(), 2);
    let rest = query_all_operators(
        &state,
        &env(),
        "alice".to_string(),
        Some(true),
        Some(page[1].spender.clone()),
        Some(2),
    )
    .unwrap()
    .operators;
    assert_eq!(rest.len(), 1);
    assert_eq!(rest[0].spender, "op-c".to_string());
    // an owner with no grants has an empty page
    let none = query_all_operators(&state, &env(), "bob".to_string(), Some(true), None, None)
        .unwrap()
        .operators;
    assert!(none.is_empty());
}

#[test]
fn approval_query_reports_expiry_and_absence() {
    let (mut state, _resp) = instantiate(InstantiateMsg {
        name: "Library".to_string(),
        symbol: "LIB".to_string(),
        minter: "admin".to_string(),
    });
    let sender = "admin".to_string();
    execute_mint(
        &mut state,
        &env(),
        &sender,
        "book-1".to_string(),
        "alice".to_string(),
        Metadata {
            title: "t".to_string(),
            author: "a".to_string(),
            url: "u".to_string(),
        },
    )
    .unwrap();
    let alice = "alice".to_string();
    book_ledger::execute_approve(
        &mut state,
        &env(),
        &alice,
        "bob".to_string(),
        "book-1".to_string(),
        Some(Expiration::AtHeight(50)),
    )
    .unwrap();
    // expired and filtered: reported as not found
    let err = query_approval(&state, &env(), "book-1".to_string(), "bob".to_string(), None)
        .unwrap_err();
    assert_eq!(err, ContractError::ApprovalNotFound);
    // visible when expired records are included
    let ok = query_approval(&state, &env(), "book-1".to_string(), "bob".to_string(), Some(true))
        .unwrap();
    assert_eq!(ok.approval.spender, "bob".to_string());
    assert_eq!(ok.approval.expires, Expiration::AtHeight(50));
    // unknown spender
    let err =
        query_approval(&state, &env(), "book-1".to_string(), "zed".to_string(), Some(true))
            .unwrap_err();
    assert_eq!(err, ContractError::ApprovalNotFound);
    // unknown token
    let err = query_approval(&state, &env(), "nope".to_string(), "bob".to_string(), None)
        .unwrap_err();
    assert_eq!(err, ContractError::TokenNotFound);
}

#[test]
fn contract_info_round_trips() {
    let (state, _resp) = instantiate(InstantiateMsg {
        name: "Library".to_string(),
        symbol: "LIB".to_string(),
        minter: "admin".to_string(),
    });
    let info = query_contract_info(&state);
    assert_eq!(info.name, "Library".to_string());
    assert_eq!(info.symbol, "LIB".to_string());
}
