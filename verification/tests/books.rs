use book_ledger::error::ContractError;
use book_ledger::execute;
use book_ledger::instantiate;
use book_ledger::msg::ExecuteMsg;
use book_ledger::msg::InstantiateMsg;
use book_ledger::msg::QueryAnswer;
use book_ledger::msg::QueryMsg;
use book_ledger::query;
use book_ledger::queries::query_all_books;
use book_ledger::queries::query_available_books;
use book_ledger::queries::query_book;
use book_ledger::queries::query_borrowed_books;
use book_ledger::queries::query_my_borrowed_books;
use book_ledger::queries::query_num_tokens;
use book_ledger::queries::query_owner_of;
use book_ledger::state::State;
use book_ledger::BlockInfo;

fn env() -> BlockInfo {
    BlockInfo { height: 100, time: 1_000_000 }
}

fn fresh() -> State {
    let (state, _resp) = instantiate(InstantiateMsg {
        name: "Library".to_string(),
        symbol: "LIB".to_string(),
        minter: "admin".to_string(),
    });
    state
}

fn add_book(state: &mut State, id: &str, owner: &str) {
    let sender = "admin".to_string();
    execute(
        state,
        &env(),
        &sender,
        ExecuteMsg::AddBook {
            token_id: id.to_string(),
            title: format!("title of {}", id),
            author: "author".to_string(),
            url: "url".to_string(),
            owner: owner.to_string(),
        },
    )
    .unwrap();
}

#[test]
fn add_book_writes_overlay_and_token() {
    let mut state = fresh();
    add_book(&mut state, "book-1", "alice");
    let book = query_book(&state, "book-1".to_string()).unwrap();
    assert_eq!(book.title, "title of book-1".to_string());
    assert_eq!(book.owner, "alice".to_string());
    // the dual write also creates the standard token record
    let owner = query_owner_of(&state, &env(), "book-1".to_string(), None).unwrap();
    assert_eq!(owner.owner, "alice".to_string());
    assert_eq!(query_num_tokens(&state).count, 1);
}

#[test]
fn unknown_book_fails_not_found() {
    let state = fresh();
    let err = query_book(&state, "nope".to_string()).unwrap_err();
    assert_eq!(err, ContractError::TokenNotFound);
}

#[test]
fn borrow_and_return_lifecycle() {
    let mut state = fresh();
    add_book(&mut state, "book-2", "alice");
    let anyone = "anyone".to_string();
    // first borrow succeeds when no borrower exists
    execute(
        &mut state,
        &env(),
        &anyone,
        ExecuteMsg::BorrowBook { token_id: "book-2".to_string(), borrower: "dora".to_string() },
    )
    .unwrap();
    // a second borrow is refused as Unauthorized, not a distinct kind
    let err = execute(
        &mut state,
        &env(),
        &anyone,
        ExecuteMsg::BorrowBook { token_id: "book-2".to_string(), borrower: "evan".to_string() },
    )
    .unwrap_err();
    assert_eq!(err, ContractError::Unauthorized);
    // return by someone who is not the borrower is refused
    let evan = "evan".to_string();
    let err = execute(
        &mut state,
        &env(),
        &evan,
        ExecuteMsg::ReturnBook { token_id: "book-2".to_string() },
    )
    .unwrap_err();
    assert_eq!(err, ContractError::Unauthorized);
    // the borrower returns it and the record is cleared
    let dora = "dora".to_string();
    execute(
        &mut state,
        &env(),
        &dora,
        ExecuteMsg::ReturnBook { token_id: "book-2".to_string() },
    )
    .unwrap();
    let answer = query(&state, &env(), QueryMsg::GetBorrower { token_id: "book-2".to_string() })
        .unwrap();
    assert_eq!(answer, QueryAnswer::Borrower(None));
}

#[test]
fn return_of_unborrowed_book_is_unauthorized() {
    let mut state = fresh();
    add_book(&mut state, "book-1", "alice");
    let dora = "dora".to_string();
    let err = execute(
        &mut state,
        &env(),
        &dora,
        ExecuteMsg::ReturnBook { token_id: "book-1".to_string() },
    )
    .unwrap_err();
    assert_eq!(err, ContractError::Unauthorized);
}

#[test]
fn book_listings_follow_borrower_records() {
    let mut state = fresh();
    add_book(&mut state, "a", "alice");
    add_book(&mut state, "b", "alice");
    add_book(&mut state, "c", "bob");
    let anyone = "anyone".to_string();
    execute(
        &mut state,
        &env(),
        &anyone,
        ExecuteMsg::BorrowBook { token_id: "b".to_string(), borrower: "dora".to_string() },
    )
    .unwrap();
    let all = query_all_books(&state);
    assert_eq!(all.len(), 3);
    assert_eq!(all[0].0, "a".to_string());
    assert_eq!(all[1].0, "b".to_string());
    assert_eq!(all[2].0, "c".to_string());
    let borrowed = query_borrowed_books(&state);
    assert_eq!(borrowed.len(), 1);
    assert_eq!(borrowed[0].0, "b".to_string());
    assert_eq!(borrowed[0].2, "dora".to_string());
    let mine = query_my_borrowed_books(&state, "dora".to_string());
    assert_eq!(mine.len(), 1);
    assert_eq!(mine[0].0, "b".to_string());
    let theirs = query_my_borrowed_books(&state, "evan".to_string());
    assert!(theirs.is_empty());
    let available = query_available_books(&state);
    let ids: Vec<String> = available.iter().map(|e| e.0.clone()).collect();
    assert_eq!(ids, vec!["a".to_string(), "c".to_string()]);
}

#[test]
fn borrower_query_reports_current_holder() {
    let mut state = fresh();
    add_book(&mut state, "book-1", "alice");
    let anyone = "anyone".to_string();
    execute(
        &mut state,
        &env(),
        &anyone,
        ExecuteMsg::BorrowBook { token_id: "book-1".to_string(), borrower: "dora".to_string() },
    )
    .unwrap();
    let answer = query(&state, &env(), QueryMsg::GetBorrower { token_id: "book-1".to_string() })
        .unwrap();
    assert_eq!(answer, QueryAnswer::Borrower(Some("dora".to_string())));
}

#[test]
fn book_listings_stop_at_the_scan_bound() {
    let mut state = fresh();
    for i in 0..105 {
        add_book(&mut state, &format!("b{:03}", i), "alice");
    }
    let all = query_all_books(&state);
    assert_eq!(all.len(), 100);
    assert_eq!(all[0].0, "b000".to_string());
    assert_eq!(all[99].0, "b099".to_string());
    let available = query_available_books(&state);
    assert_eq!(available.len(), 100);
}
