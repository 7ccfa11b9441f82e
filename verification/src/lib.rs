//! An ownership-and-authorization ledger for uniquely identified tokens.
//!
//! Each token is bound to exactly one owner. A delegated-permission layer
//! lets non-owners act on a single token (approvals) or on all tokens of an
//! owner (operator grants) until an expiration condition elapses. A legacy
//! book-lending overlay (one borrower per item, no delegation) shares the
//! same identifier space.

pub mod auth;
pub mod contract;
pub mod error;
pub mod expiration;
pub mod msg;
pub mod order;
pub mod page;
pub mod queries;
pub mod state;
pub mod strmap;

pub use contract::execute;
pub use contract::execute_approve;
pub use contract::execute_approve_all;
pub use contract::execute_burn;
pub use contract::execute_mint;
pub use contract::execute_revoke;
pub use contract::execute_revoke_all;
pub use contract::execute_send_nft;
pub use contract::execute_transfer_nft;
pub use contract::instantiate;
pub use expiration::BlockInfo;
pub use expiration::Expiration;
pub use queries::query;
