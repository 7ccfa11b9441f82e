//! Messages in and answers out: the closed set of mutating and read-only
//! entry points, and the structured results they return.

use vstd::prelude::*;

use crate::expiration::Expiration;
use crate::state::Approval;
use crate::state::Book;
use crate::state::ContractInfoResponse;
use crate::state::Metadata;

verus! {

/// The configuration handed to `instantiate`.
#[derive(Debug, PartialEq)]
pub struct InstantiateMsg {
    pub name: String,
    pub symbol: String,
    pub minter: String,
}

/// The mutating entry points.
#[derive(Debug, PartialEq)]
pub enum ExecuteMsg {
    /// Move a token to another account without triggering an action.
    TransferNft { recipient: String, token_id: String },
    /// Move a token to a contract account and trigger an action there by
    /// forwarding the given payload.
    SendNft { contract: String, token_id: String, msg: Vec<u8> },
    /// Grant a spender the right to act on one token, until the expiration
    /// if one is set.
    Approve { spender: String, token_id: String, expires: Option<Expiration> },
    /// Remove a previously granted per-token approval.
    Revoke { spender: String, token_id: String },
    /// Grant an operator the right to act on every token of the caller,
    /// until the expiration if one is set.
    ApproveAll { operator: String, expires: Option<Expiration> },
    /// Remove a previously granted operator relation.
    RevokeAll { operator: String },
    /// Create a new token.
    Mint { token_id: String, owner: String, metadata: Metadata },
    /// Destroy a token the caller owns.
    Burn { token_id: String },
    /// Legacy: add a book, writing both the overlay record and a full
    /// token record.
    AddBook { token_id: String, title: String, author: String, url: String, owner: String },
    /// Legacy: borrow a book if nobody holds it.
    BorrowBook { token_id: String, borrower: String },
    /// Legacy: return a borrowed book; only the borrower may.
    ReturnBook { token_id: String },
}

/// The read-only entry points.
#[derive(Debug, PartialEq)]
pub enum QueryMsg {
    /// The owner of a token; an error if the token does not exist.
    OwnerOf { token_id: String, include_expired: Option<bool> },
    /// One spender's approval on a token.
    Approval { token_id: String, spender: String, include_expired: Option<bool> },
    /// All approvals a token has.
    Approvals { token_id: String, include_expired: Option<bool> },
    /// All operators that may act on every token of the owner.
    AllOperators {
        owner: String,
        include_expired: Option<bool>,
        start_after: Option<String>,
        limit: Option<u32>,
    },
    /// The total number of tokens issued.
    NumTokens {},
    /// The metadata of one token.
    NftInfo { token_id: String },
    /// Owner and metadata of one token in a single answer.
    AllNftInfo { token_id: String, include_expired: Option<bool> },
    /// The tokens owned by an address, paginated.
    Tokens { owner: String, start_after: Option<String>, limit: Option<u32> },
    /// Every token identifier, paginated.
    AllTokens { start_after: Option<String>, limit: Option<u32> },
    /// The contract's configuration.
    ContractInfo {},
    /// Legacy: the current borrower of a book, if any.
    GetBorrower { token_id: String },
    /// Legacy: one book record.
    GetBook { token_id: String },
    /// Legacy: every book record.
    GetAllBooks {},
    /// Legacy: every borrowed book with its borrower.
    GetBorrowedBooks {},
    /// Legacy: every book borrowed by the given address.
    GetMyBorrowedBooks { borrower: String },
    /// Legacy: every book no one currently borrows.
    GetAvailableBooks {},
}

/// The owner of a token and the approvals on it.
#[derive(Debug, PartialEq)]
pub struct OwnerOfResponse {
    pub owner: String,
    pub approvals: Vec<Approval>,
}

/// One approval.
#[derive(Debug, PartialEq)]
pub struct ApprovalResponse {
    pub approval: Approval,
}

/// The approvals on a token.
#[derive(Debug, PartialEq)]
pub struct ApprovalsResponse {
    pub approvals: Vec<Approval>,
}

/// The operators of an owner, each with its expiration.
#[derive(Debug, PartialEq)]
pub struct OperatorsResponse {
    pub operators: Vec<Approval>,
}

/// The total number of tokens issued.
#[derive(Debug, PartialEq)]
pub struct NumTokensResponse {
    pub count: u64,
}

/// The metadata of one token.
#[derive(Debug, PartialEq)]
pub struct NftInfoResponse {
    pub token_uri: Option<String>,
    pub extension: Metadata,
}

/// Owner and metadata of one token.
#[derive(Debug, PartialEq)]
pub struct AllNftInfoResponse {
    pub access: OwnerOfResponse,
    pub info: NftInfoResponse,
}

/// A page of token identifiers.
#[derive(Debug, PartialEq)]
pub struct TokensResponse {
    pub tokens: Vec<String>,
}

/// A combined book description.
#[derive(Debug, PartialEq)]
pub struct BookInfoResponse {
    pub name: String,
    pub description: String,
    pub title: String,
    pub author: String,
    pub url: String,
}

/// The configured minter.
#[derive(Debug, PartialEq)]
pub struct MinterResponse {
    pub minter: String,
}

/// A call into another contract, triggered after a send commits.
#[derive(Debug, PartialEq)]
pub struct ForwardMsg {
    pub contract_addr: String,
    pub msg: Vec<u8>,
}

/// The outcome of a successful mutating call: audit attributes, and for a
/// send the forwarded payload.
#[derive(Debug, PartialEq)]
pub struct Response {
    pub attributes: Vec<(String, String)>,
    pub forward: Option<ForwardMsg>,
}

/// The structured answer of a read-only call.
#[derive(Debug, PartialEq)]
pub enum QueryAnswer {
    OwnerOf(OwnerOfResponse),
    Approval(ApprovalResponse),
    Approvals(ApprovalsResponse),
    Operators(OperatorsResponse),
    NumTokens(NumTokensResponse),
    NftInfo(NftInfoResponse),
    AllNftInfo(AllNftInfoResponse),
    Tokens(TokensResponse),
    ContractInfo(ContractInfoResponse),
    Borrower(Option<String>),
    Book(Book),
    AllBooks(Vec<(String, Book)>),
    BorrowedBooks(Vec<(String, Book, String)>),
    MyBorrowedBooks(Vec<(String, Book)>),
    AvailableBooks(Vec<(String, Book)>),
}

} // verus!
