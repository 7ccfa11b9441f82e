//! The persistent state of the ledger and its mathematical model.
//!
//! `State` holds the token store, the operator store, and the legacy
//! book/borrower overlay, each an ordered map so that the enumeration layer
//! can page over it. `StateV` is the view every contract is stated over.

use vstd::prelude::*;

use crate::expiration::Expiration;
use crate::strmap::sorted_al;
use crate::strmap::Entries;
use crate::strmap::StrMap;

verus! {

/// On-chain metadata carried by each token.
#[derive(Debug, PartialEq)]
pub struct Metadata {
    pub title: String,
    pub author: String,
    pub url: String,
}

/// The model of `Metadata`.
pub ghost struct MetadataV {
    pub title: Seq<char>,
    pub author: Seq<char>,
    pub url: Seq<char>,
}

impl View for Metadata {
    type V = MetadataV;

    open spec fn view(&self) -> MetadataV {
        MetadataV { title: self.title@, author: self.author@, url: self.url@ }
    }
}

/// A time-bounded permission for one address to act on one token.
#[derive(Debug, PartialEq)]
pub struct Approval {
    pub spender: String,
    pub expires: Expiration,
}

/// The model of `Approval`.
pub ghost struct ApprovalV {
    pub spender: Seq<char>,
    pub expires: Expiration,
}

impl View for Approval {
    type V = ApprovalV;

    open spec fn view(&self) -> ApprovalV {
        ApprovalV { spender: self.spender@, expires: self.expires }
    }
}

/// The model of a sequence of approvals.
pub open spec fn approvals_view(s: Seq<Approval>) -> Seq<ApprovalV> {
    s.map_values(|a: Approval| a@)
}

/// One token: its owner, its per-token approvals, its metadata.
#[derive(Debug, PartialEq)]
pub struct TokenInfo {
    pub owner: String,
    pub approvals: Vec<Approval>,
    pub metadata: Metadata,
}

/// The model of `TokenInfo`.
pub ghost struct TokenInfoV {
    pub owner: Seq<char>,
    pub approvals: Seq<ApprovalV>,
    pub metadata: MetadataV,
}

impl View for TokenInfo {
    type V = TokenInfoV;

    open spec fn view(&self) -> TokenInfoV {
        TokenInfoV {
            owner: self.owner@,
            approvals: approvals_view(self.approvals@),
            metadata: self.metadata@,
        }
    }
}

/// A legacy book record, kept in the overlay beside the token store.
#[derive(Debug, PartialEq)]
pub struct Book {
    pub title: String,
    pub author: String,
    pub url: String,
    pub owner: String,
}

/// The model of `Book`.
pub ghost struct BookV {
    pub title: Seq<char>,
    pub author: Seq<char>,
    pub url: Seq<char>,
    pub owner: Seq<char>,
}

impl View for Book {
    type V = BookV;

    open spec fn view(&self) -> BookV {
        BookV {
            title: self.title@,
            author: self.author@,
            url: self.url@,
            owner: self.owner@,
        }
    }
}

/// The contract's immutable-after-init configuration.
#[derive(Debug, PartialEq)]
pub struct ContractInfoResponse {
    pub name: String,
    pub symbol: String,
}

impl Clone for Metadata {
    /// Clones the metadata, keeping its model.
    fn clone(&self) -> (r: Self)
        ensures
            r@ == self@,
    {
        Metadata {
            title: self.title.clone(),
            author: self.author.clone(),
            url: self.url.clone(),
        }
    }
}

impl Clone for Approval {
    /// Clones the approval, keeping its model.
    fn clone(&self) -> (r: Self)
        ensures
            r@ == self@,
    {
        Approval { spender: self.spender.clone(), expires: self.expires }
    }
}

impl Clone for Book {
    /// Clones the book, keeping its model.
    fn clone(&self) -> (r: Self)
        ensures
            r@ == self@,
    {
        Book {
            title: self.title.clone(),
            author: self.author.clone(),
            url: self.url.clone(),
            owner: self.owner.clone(),
        }
    }
}

/// At most one active approval per spender within a token.
pub open spec fn unique_spenders(s: Seq<ApprovalV>) -> bool {
    forall|i: int, j: int|
        0 <= i < j < s.len() ==> (#[trigger] s[i].spender) != (#[trigger] s[j].spender)
}

/// The whole persistent state of the ledger.
pub struct State {
    pub contract_info: ContractInfoResponse,
    pub minter: String,
    pub tokens: StrMap<TokenInfo>,
    pub operators: StrMap<StrMap<Expiration>>,
    pub books: StrMap<Book>,
    pub borrowers: StrMap<String>,
}

/// The model of `State`.
pub ghost struct StateV {
    pub name: Seq<char>,
    pub symbol: Seq<char>,
    pub minter: Seq<char>,
    pub tokens: Entries<TokenInfoV>,
    pub operators: Entries<Entries<Expiration>>,
    pub books: Entries<BookV>,
    pub borrowers: Entries<Seq<char>>,
}

impl View for State {
    type V = StateV;

    open spec fn view(&self) -> StateV {
        StateV {
            name: self.contract_info.name@,
            symbol: self.contract_info.symbol@,
            minter: self.minter@,
            tokens: self.tokens@,
            operators: self.operators@,
            books: self.books@,
            borrowers: self.borrowers@,
        }
    }
}

/// Decides spender-uniqueness of an approval list.
fn check_unique_spenders(approvals: &Vec<Approval>) -> (r: bool)
    ensures
        r == unique_spenders(approvals_view(approvals@)),
{
    let ghost s = approvals_view(approvals@);
    let n = approvals.len();
    let mut i: usize = 0;
    while i < n
        invariant
            i <= n,
            n == approvals@.len(),
            s == approvals_view(approvals@),
            forall|p: int, q: int|
                0 <= p < i && p < q < s.len() ==> (#[trigger] s[p].spender) != (
                #[trigger] s[q].spender),
        decreases n - i,
    {
        let mut j: usize = i + 1;
        while j < n
            invariant
                i < n,
                i < j <= n,
                n == approvals@.len(),
                s == approvals_view(approvals@),
                forall|q: int|
                    i < q < j ==> (#[trigger] s[q].spender) != s[i as int].spender,
            decreases n - j,
        {
            proof {
                assert(s[i as int] == approvals@[i as int]@);
                assert(s[j as int] == approvals@[j as int]@);
            }
            if approvals[i].spender == approvals[j].spender {
                proof {
                    assert(!unique_spenders(s)) by {
                        if unique_spenders(s) {
                            assert(s[i as int].spender != s[j as int].spender);
                        }
                    }
                }
                return false;
            }
            j = j + 1;
        }
        i = i + 1;
    }
    true
}

impl State {
    /// The state invariant: every store is strictly sorted by its key, and
    /// each token's approval list holds at most one record per spender.
    pub open spec fn wf(&self) -> bool {
        &&& sorted_al(self@.tokens)
        &&& sorted_al(self@.operators)
        &&& (forall|i: int|
            0 <= i < self@.operators.len() ==> sorted_al(#[trigger] self@.operators[i].1))
        &&& sorted_al(self@.books)
        &&& sorted_al(self@.borrowers)
        &&& (forall|i: int|
            0 <= i < self@.tokens.len() ==> unique_spenders(
                #[trigger] self@.tokens[i].1.approvals,
            ))
    }

    /// Decides the state invariant, so an unverified caller that obtained a
    /// state from elsewhere (say, storage) can establish it before handing
    /// the state to the workflows.
    pub fn check_wf(&self) -> (r: bool)
        ensures
            r == self.wf(),
    {
        if !self.tokens.check_wf() {
            return false;
        }
        if !self.operators.check_wf() {
            return false;
        }
        if !self.books.check_wf() {
            return false;
        }
        if !self.borrowers.check_wf() {
            return false;
        }
        let n = self.operators.len();
        let mut i: usize = 0;
        while i < n
            invariant
                i <= n,
                n == self@.operators.len(),
                sorted_al(self@.tokens),
                sorted_al(self@.operators),
                sorted_al(self@.books),
                sorted_al(self@.borrowers),
                forall|j: int| 0 <= j < i ==> sorted_al(#[trigger] self@.operators[j].1),
            decreases n - i,
        {
            let e = self.operators.entry_at(i);
            if !e.1.check_wf() {
                proof {
                    assert(!self.wf()) by {
                        if self.wf() {
                            assert(sorted_al(self@.operators[i as int].1));
                        }
                    }
                }
                return false;
            }
            i = i + 1;
        }
        let m = self.tokens.len();
        let mut k: usize = 0;
        while k < m
            invariant
                k <= m,
                m == self@.tokens.len(),
                sorted_al(self@.tokens),
                sorted_al(self@.operators),
                sorted_al(self@.books),
                sorted_al(self@.borrowers),
                forall|j: int|
                    0 <= j < self@.operators.len() ==> sorted_al(#[trigger] self@.operators[j].1),
                forall|j: int|
                    0 <= j < k ==> unique_spenders(#[trigger] self@.tokens[j].1.approvals),
            decreases m - k,
        {
            let e = self.tokens.entry_at(k);
            if !check_unique_spenders(&e.1.approvals) {
                proof {
                    assert(!self.wf()) by {
                        if self.wf() {
                            assert(unique_spenders(self@.tokens[k as int].1.approvals));
                        }
                    }
                }
                return false;
            }
            k = k + 1;
        }
        true
    }
}

} // verus!
