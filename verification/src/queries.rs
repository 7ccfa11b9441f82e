//! The read model: point lookups and the paginated, filterable enumeration
//! queries over the token, operator and book stores.
//!
//! Expired records are filtered out unless `include_expired` asks for them;
//! filtering happens per item in a single pass and the limit applies to the
//! records that survive it, so a page shorter than `limit` means the
//! surviving records past the cursor ran out.

use vstd::prelude::*;

use crate::error::ContractError;
use crate::expiration::spec_is_expired;
use crate::expiration::BlockInfo;
use crate::expiration::Expiration;
use crate::msg::AllNftInfoResponse;
use crate::msg::ApprovalResponse;
use crate::msg::ApprovalsResponse;
use crate::msg::NftInfoResponse;
use crate::msg::NumTokensResponse;
use crate::msg::OperatorsResponse;
use crate::msg::OwnerOfResponse;
use crate::msg::QueryAnswer;
use crate::msg::QueryMsg;
use crate::msg::TokensResponse;
use crate::page::after_keys;
use crate::page::clamp_limit;
use crate::page::key_after;
use crate::page::key_after_exec;
use crate::page::keys_of;
use crate::page::spec_clamp_limit;
use crate::page::take_up_to;
use crate::page::view_opt;
use crate::state::approvals_view;
use crate::state::Approval;
use crate::state::ApprovalV;
use crate::state::Book;
use crate::state::BookV;
use crate::state::ContractInfoResponse;
use crate::state::State;
use crate::state::StateV;
use crate::state::TokenInfoV;
use crate::strmap::assoc_get;
use crate::strmap::lemma_assoc_some_index;
use crate::strmap::Entries;

verus! {

/// How an `include_expired` flag reads: only an explicit `true` includes
/// expired records.
pub open spec fn inc_of(o: Option<bool>) -> bool {
    o == Some(true)
}

/// The approvals that survive the expiry filter, in order.
pub open spec fn live_approvals(s: Seq<ApprovalV>, inc: bool, b: BlockInfo) -> Seq<ApprovalV>
    decreases s.len(),
{
    if s.len() == 0 {
        Seq::empty()
    } else {
        let rest = live_approvals(s.drop_last(), inc, b);
        if inc || !spec_is_expired(s.last().expires, b) {
            rest.push(s.last())
        } else {
            rest
        }
    }
}

/// The spender's approval on a token, if one exists and survives the
/// expiry filter.
pub open spec fn find_approval(
    s: Seq<ApprovalV>,
    spender: Seq<char>,
    inc: bool,
    b: BlockInfo,
) -> Option<ApprovalV> {
    if exists|i: int| 0 <= i < s.len() && (#[trigger] s[i]).spender == spender {
        let a = s[choose|i: int| 0 <= i < s.len() && (#[trigger] s[i]).spender == spender];
        if inc || !spec_is_expired(a.expires, b) {
            Some(a)
        } else {
            None
        }
    } else {
        None
    }
}

/// The keys of the owner's tokens strictly after the cursor, in order.
pub open spec fn owner_keys_after(
    s: Entries<TokenInfoV>,
    owner: Seq<char>,
    start: Option<Seq<char>>,
) -> Seq<Seq<char>>
    decreases s.len(),
{
    if s.len() == 0 {
        Seq::empty()
    } else {
        let rest = owner_keys_after(s.drop_last(), owner, start);
        if key_after(start, s.last().0) && s.last().1.owner == owner {
            rest.push(s.last().0)
        } else {
            rest
        }
    }
}

/// The operator grants strictly after the cursor that survive the expiry
/// filter, in order, each as an (operator, expiration) record.
pub open spec fn operators_after(
    s: Entries<Expiration>,
    start: Option<Seq<char>>,
    inc: bool,
    b: BlockInfo,
) -> Seq<ApprovalV>
    decreases s.len(),
{
    if s.len() == 0 {
        Seq::empty()
    } else {
        let rest = operators_after(s.drop_last(), start, inc, b);
        if key_after(start, s.last().0) && (inc || !spec_is_expired(s.last().1, b)) {
            rest.push(ApprovalV { spender: s.last().0, expires: s.last().1 })
        } else {
            rest
        }
    }
}

/// The operator store's grants for one owner; no entry reads as no grants.
pub open spec fn grants_of(ops: Entries<Entries<Expiration>>, owner: Seq<char>) -> Entries<
    Expiration,
> {
    match assoc_get(ops, owner) {
        Some(inner) => inner,
        None => Seq::empty(),
    }
}

/// The borrower records joined with their book records, in order.
pub open spec fn borrowed_join(bs: Entries<Seq<char>>, books: Entries<BookV>) -> Seq<
    (Seq<char>, BookV, Seq<char>),
>
    decreases bs.len(),
{
    if bs.len() == 0 {
        Seq::empty()
    } else {
        let rest = borrowed_join(bs.drop_last(), books);
        match assoc_get(books, bs.last().0) {
            Some(b) => rest.push((bs.last().0, b, bs.last().1)),
            None => rest,
        }
    }
}

/// One borrower's records joined with their book records, in order.
pub open spec fn my_borrowed_join(
    bs: Entries<Seq<char>>,
    books: Entries<BookV>,
    borrower: Seq<char>,
) -> Seq<(Seq<char>, BookV)>
    decreases bs.len(),
{
    if bs.len() == 0 {
        Seq::empty()
    } else {
        let rest = my_borrowed_join(bs.drop_last(), books, borrower);
        if bs.last().1 == borrower {
            match assoc_get(books, bs.last().0) {
                Some(b) => rest.push((bs.last().0, b)),
                None => rest,
            }
        } else {
            rest
        }
    }
}

/// The books nobody currently borrows, in order.
pub open spec fn available_join(books: Entries<BookV>, bs: Entries<Seq<char>>) -> Seq<
    (Seq<char>, BookV),
>
    decreases books.len(),
{
    if books.len() == 0 {
        Seq::empty()
    } else {
        let rest = available_join(books.drop_last(), bs);
        if assoc_get(bs, books.last().0) is None {
            rest.push((books.last().0, books.last().1))
        } else {
            rest
        }
    }
}

/// The model of a list of identifiers.
pub open spec fn strings_view(s: Seq<String>) -> Seq<Seq<char>> {
    s.map_values(|x: String| x@)
}

/// The model of a list of (identifier, book) pairs.
pub open spec fn book_pairs_view(s: Seq<(String, Book)>) -> Seq<(Seq<char>, BookV)> {
    s.map_values(|e: (String, Book)| (e.0@, e.1@))
}

/// The model of a list of (identifier, book, borrower) triples.
pub open spec fn borrowed_view(s: Seq<(String, Book, String)>) -> Seq<(Seq<char>, BookV, Seq<char>)> {
    s.map_values(|e: (String, Book, String)| (e.0@, e.1@, e.2@))
}

/// The overlay enumeration queries scan at most this many records.
pub const MAX_BOOKS: usize = 100;

/// Filters an approval list by expiry, cloning what survives.
fn live_approvals_vec(approvals: &Vec<Approval>, inc: bool, block: &BlockInfo) -> (r: Vec<Approval>)
    ensures
        approvals_view(r@) == live_approvals(approvals_view(approvals@), inc, *block),
{
    let ghost s = approvals_view(approvals@);
    let n = approvals.len();
    let mut out: Vec<Approval> = Vec::new();
    let mut i: usize = 0;
    proof {
        assert(approvals_view(out@) =~= live_approvals(s.take(0), inc, *block));
    }
    while i < n
        invariant
            i <= n,
            n == approvals@.len(),
            s == approvals_view(approvals@),
            approvals_view(out@) == live_approvals(s.take(i as int), inc, *block),
        decreases n - i,
    {
        let ghost pre = approvals_view(out@);
        let a = &approvals[i];
        proof {
            assert(s[i as int] == a@);
            assert(s.take(i as int + 1).drop_last() =~= s.take(i as int));
            assert(s.take(i as int + 1).last() == s[i as int]);
        }
        if inc || !a.expires.is_expired(block) {
            out.push(a.clone());
            proof {
                assert(approvals_view(out@) =~= pre.push(a@));
            }
        }
        i = i + 1;
    }
    proof {
        assert(s.take(n as int) =~= s);
    }
    out
}

/// What `query_owner_of` answers: the token's owner and its approvals that
/// survive the expiry filter; an absent token fails `TokenNotFound`.
pub open spec fn owner_of_post(
    s: StateV,
    block: BlockInfo,
    token_id: Seq<char>,
    include_expired: Option<bool>,
    r: Result<OwnerOfResponse, ContractError>,
) -> bool {
    match assoc_get(s.tokens, token_id) {
        None => r matches Err(e) && e == ContractError::TokenNotFound,
        Some(t) => r matches Ok(resp) && resp.owner@ == t.owner && approvals_view(resp.approvals@)
            == live_approvals(t.approvals, inc_of(include_expired), block),
    }
}

/// The owner of a token and the approvals on it.
pub fn query_owner_of(
    state: &State,
    env: &BlockInfo,
    token_id: String,
    include_expired: Option<bool>,
) -> (r: Result<OwnerOfResponse, ContractError>)
    ensures
        owner_of_post(state@, *env, token_id@, include_expired, r),
{
    let token = match state.tokens.get(&token_id) {
        None => {
            return Err(ContractError::TokenNotFound);
        },
        Some(t) => t,
    };
    let inc = match include_expired {
        Some(b) => b,
        None => false,
    };
    let approvals = live_approvals_vec(&token.approvals, inc, env);
    Ok(OwnerOfResponse { owner: token.owner.clone(), approvals })
}

/// What `query_approval` answers: the spender's approval if it exists and
/// survives the expiry filter, `ApprovalNotFound` otherwise; an absent
/// token fails `TokenNotFound`.
pub open spec fn approval_post(
    s: StateV,
    block: BlockInfo,
    token_id: Seq<char>,
    spender: Seq<char>,
    include_expired: Option<bool>,
    r: Result<ApprovalResponse, ContractError>,
) -> bool {
    match assoc_get(s.tokens, token_id) {
        None => r matches Err(e) && e == ContractError::TokenNotFound,
        Some(t) => match find_approval(t.approvals, spender, inc_of(include_expired), block) {
            Some(a) => r matches Ok(resp) && resp.approval@ == a,
            None => r matches Err(e) && e == ContractError::ApprovalNotFound,
        },
    }
}

/// One spender's approval on a token.
pub fn query_approval(
    state: &State,
    env: &BlockInfo,
    token_id: String,
    spender: String,
    include_expired: Option<bool>,
) -> (r: Result<ApprovalResponse, ContractError>)
    requires
        state.wf(),
    ensures
        approval_post(state@, *env, token_id@, spender@, include_expired, r),
{
    let token = match state.tokens.get(&token_id) {
        None => {
            return Err(ContractError::TokenNotFound);
        },
        Some(t) => t,
    };
    let ghost s = approvals_view(token.approvals@);
    proof {
        lemma_assoc_some_index(state@.tokens, token_id@);
        let j = choose|j: int|
            0 <= j < state@.tokens.len() && (#[trigger] state@.tokens[j]).0 == token_id@
                && state@.tokens[j].1 == token@;
        assert(crate::state::unique_spenders(state@.tokens[j].1.approvals));
    }
    let inc = match include_expired {
        Some(b) => b,
        None => false,
    };
    let n = token.approvals.len();
    let mut i: usize = 0;
    while i < n
        invariant
            i <= n,
            n == token.approvals@.len(),
            s == approvals_view(token.approvals@),
            s == token@.approvals,
            assoc_get(state@.tokens, token_id@) == Some(token@),
            inc == inc_of(include_expired),
            crate::state::unique_spenders(s),
            forall|j: int| 0 <= j < i ==> (#[trigger] s[j]).spender != spender@,
        decreases n - i,
    {
        let a = &token.approvals[i];
        proof {
            assert(s[i as int] == a@);
        }
        if a.spender == spender {
            proof {
                let c = choose|j: int| 0 <= j < s.len() && (#[trigger] s[j]).spender == spender@;
                if c != i as int {
                    if c < i as int {
                        assert(s[c].spender != s[i as int].spender);
                    } else {
                        assert(s[i as int].spender != s[c].spender);
                    }
                }
                assert(c == i as int);
            }
            if inc || !a.expires.is_expired(env) {
                return Ok(ApprovalResponse { approval: a.clone() });
            } else {
                return Err(ContractError::ApprovalNotFound);
            }
        }
        i = i + 1;
    }
    Err(ContractError::ApprovalNotFound)
}

/// What `query_approvals` answers: the token's approvals that survive the
/// expiry filter; an absent token fails `TokenNotFound`.
pub open spec fn approvals_post(
    s: StateV,
    block: BlockInfo,
    token_id: Seq<char>,
    include_expired: Option<bool>,
    r: Result<ApprovalsResponse, ContractError>,
) -> bool {
    match assoc_get(s.tokens, token_id) {
        None => r matches Err(e) && e == ContractError::TokenNotFound,
        Some(t) => r matches Ok(resp) && approvals_view(resp.approvals@) == live_approvals(
            t.approvals,
            inc_of(include_expired),
            block,
        ),
    }
}

/// The approvals a token has.
pub fn query_approvals(
    state: &State,
    env: &BlockInfo,
    token_id: String,
    include_expired: Option<bool>,
) -> (r: Result<ApprovalsResponse, ContractError>)
    ensures
        approvals_post(state@, *env, token_id@, include_expired, r),
{
    let token = match state.tokens.get(&token_id) {
        None => {
            return Err(ContractError::TokenNotFound);
        },
        Some(t) => t,
    };
    let inc = match include_expired {
        Some(b) => b,
        None => false,
    };
    let approvals = live_approvals_vec(&token.approvals, inc, env);
    Ok(ApprovalsResponse { approvals })
}

/// What `query_all_operators` answers: the owner's operator grants strictly
/// after the cursor that survive the expiry filter, in ascending operator
/// order, up to the clamped limit.
pub open spec fn all_operators_post(
    s: StateV,
    block: BlockInfo,
    owner: Seq<char>,
    include_expired: Option<bool>,
    start_after: Option<String>,
    limit: Option<u32>,
    r: Result<OperatorsResponse, ContractError>,
) -> bool {
    r matches Ok(resp) && approvals_view(resp.operators@) == take_up_to(
        operators_after(
            grants_of(s.operators, owner),
            view_opt(start_after),
            inc_of(include_expired),
            block,
        ),
        spec_clamp_limit(limit) as int,
    )
}

/// The operators that may act on every token of the owner, paginated.
pub fn query_all_operators(
    state: &State,
    env: &BlockInfo,
    owner: String,
    include_expired: Option<bool>,
    start_after: Option<String>,
    limit: Option<u32>,
) -> (r: Result<OperatorsResponse, ContractError>)
    ensures
        all_operators_post(state@, *env, owner@, include_expired, start_after, limit, r),
{
    let lim = clamp_limit(limit);
    let inc = match include_expired {
        Some(b) => b,
        None => false,
    };
    let mut out: Vec<Approval> = Vec::new();
    match state.operators.get(&owner) {
        None => {
            proof {
                assert(approvals_view(out@) =~= Seq::<ApprovalV>::empty());
                assert(take_up_to(
                    operators_after(
                        grants_of(state@.operators, owner@),
                        view_opt(start_after),
                        inc,
                        *env,
                    ),
                    lim as int,
                ) =~= Seq::<ApprovalV>::empty());
            }
        },
        Some(inner) => {
            let ghost s = inner@;
            let n = inner.len();
            let mut i: usize = 0;
            proof {
                assert(approvals_view(out@) =~= operators_after(
                    s.take(0),
                    view_opt(start_after),
                    inc,
                    *env,
                ));
            }
            while i < n
                invariant
                    i <= n,
                    n == s.len(),
                    s == inner@,
                    approvals_view(out@) == operators_after(
                        s.take(i as int),
                        view_opt(start_after),
                        inc,
                        *env,
                    ),
                decreases n - i,
            {
                let ghost pre = approvals_view(out@);
                let (k, e) = inner.entry_at(i);
                proof {
                    assert(s.take(i as int + 1).drop_last() =~= s.take(i as int));
                    assert(s.take(i as int + 1).last() == s[i as int]);
                }
                if key_after_exec(&start_after, k) && (inc || !e.is_expired(env)) {
                    out.push(Approval { spender: k.clone(), expires: *e });
                    proof {
                        assert(approvals_view(out@) =~= pre.push(
                            ApprovalV { spender: s[i as int].0, expires: s[i as int].1 },
                        ));
                    }
                }
                i = i + 1;
            }
            proof {
                assert(s.take(n as int) =~= s);
            }
            out.truncate(lim);
            proof {
                let full = operators_after(grants_of(state@.operators, owner@), view_opt(start_after), inc, *env);
                if lim <= full.len() {
                    assert(approvals_view(out@) =~= full.take(lim as int));
                } else {
                    assert(approvals_view(out@) =~= full);
                }
            }
        },
    }
    Ok(OperatorsResponse { operators: out })
}

/// The total number of tokens issued: the cardinality of the token store,
/// derived from it directly so the count can never drift from the store.
pub fn query_num_tokens(state: &State) -> (r: NumTokensResponse)
    ensures
        r.count == state@.tokens.len(),
{
    NumTokensResponse { count: state.tokens.len() as u64 }
}

/// What `query_nft_info` answers: the token's metadata (kept on chain, so
/// no separate resource link); an absent token fails `TokenNotFound`.
pub open spec fn nft_info_post(
    s: StateV,
    token_id: Seq<char>,
    r: Result<NftInfoResponse, ContractError>,
) -> bool {
    match assoc_get(s.tokens, token_id) {
        None => r matches Err(e) && e == ContractError::TokenNotFound,
        Some(t) => r matches Ok(resp) && resp.token_uri is None && resp.extension@ == t.metadata,
    }
}

/// The metadata of one token.
pub fn query_nft_info(state: &State, token_id: String) -> (r: Result<
    NftInfoResponse,
    ContractError,
>)
    ensures
        nft_info_post(state@, token_id@, r),
{
    let token = match state.tokens.get(&token_id) {
        None => {
            return Err(ContractError::TokenNotFound);
        },
        Some(t) => t,
    };
    Ok(NftInfoResponse { token_uri: None, extension: token.metadata.clone() })
}

/// What `query_all_nft_info` answers: owner, filtered approvals and
/// metadata of one token in a single answer.
pub open spec fn all_nft_info_post(
    s: StateV,
    block: BlockInfo,
    token_id: Seq<char>,
    include_expired: Option<bool>,
    r: Result<AllNftInfoResponse, ContractError>,
) -> bool {
    match assoc_get(s.tokens, token_id) {
        None => r matches Err(e) && e == ContractError::TokenNotFound,
        Some(t) => r matches Ok(resp) && resp.access.owner@ == t.owner && approvals_view(
            resp.access.approvals@,
        ) == live_approvals(t.approvals, inc_of(include_expired), block) && resp.info.token_uri
            is None && resp.info.extension@ == t.metadata,
    }
}

/// Owner and metadata of one token as one answer.
pub fn query_all_nft_info(
    state: &State,
    env: &BlockInfo,
    token_id: String,
    include_expired: Option<bool>,
) -> (r: Result<AllNftInfoResponse, ContractError>)
    ensures
        all_nft_info_post(state@, *env, token_id@, include_expired, r),
{
    let access = match query_owner_of(state, env, token_id.clone(), include_expired) {
        Err(e) => {
            return Err(e);
        },
        Ok(a) => a,
    };
    let info = match query_nft_info(state, token_id) {
        Err(e) => {
            return Err(e);
        },
        Ok(n) => n,
    };
    Ok(AllNftInfoResponse { access, info })
}

/// What `query_tokens` answers: the keys of the owner's tokens strictly
/// after the cursor, ascending, up to the clamped limit.
pub open spec fn tokens_post(
    s: StateV,
    owner: Seq<char>,
    start_after: Option<String>,
    limit: Option<u32>,
    r: Result<TokensResponse, ContractError>,
) -> bool {
    r matches Ok(resp) && strings_view(resp.tokens@) == take_up_to(
        owner_keys_after(s.tokens, owner, view_opt(start_after)),
        spec_clamp_limit(limit) as int,
    )
}

/// The tokens owned by an address, paginated.
pub fn query_tokens(
    state: &State,
    owner: String,
    start_after: Option<String>,
    limit: Option<u32>,
) -> (r: Result<TokensResponse, ContractError>)
    ensures
        tokens_post(state@, owner@, start_after, limit, r),
{
    let lim = clamp_limit(limit);
    let ghost s = state@.tokens;
    let n = state.tokens.len();
    let mut out: Vec<String> = Vec::new();
    let mut i: usize = 0;
    proof {
        assert(strings_view(out@) =~= owner_keys_after(s.take(0), owner@, view_opt(start_after)));
    }
    while i < n
        invariant
            i <= n,
            n == s.len(),
            s == state@.tokens,
            strings_view(out@) == owner_keys_after(s.take(i as int), owner@, view_opt(start_after)),
        decreases n - i,
    {
        let ghost pre = strings_view(out@);
        let (k, t) = state.tokens.entry_at(i);
        proof {
            assert(s.take(i as int + 1).drop_last() =~= s.take(i as int));
            assert(s.take(i as int + 1).last() == s[i as int]);
        }
        if key_after_exec(&start_after, k) && t.owner == owner {
            out.push(k.clone());
            proof {
                assert(strings_view(out@) =~= pre.push(s[i as int].0));
            }
        }
        i = i + 1;
    }
    proof {
        assert(s.take(n as int) =~= s);
    }
    out.truncate(lim);
    proof {
        let full = owner_keys_after(s, owner@, view_opt(start_after));
        if lim <= full.len() {
            assert(strings_view(out@) =~= full.take(lim as int));
        } else {
            assert(strings_view(out@) =~= full);
        }
    }
    Ok(TokensResponse { tokens: out })
}

/// What `query_all_tokens` answers: every token key strictly after the
/// cursor, ascending, up to the clamped limit.
pub open spec fn all_tokens_post(
    s: StateV,
    start_after: Option<String>,
    limit: Option<u32>,
    r: Result<TokensResponse, ContractError>,
) -> bool {
    r matches Ok(resp) && strings_view(resp.tokens@) == take_up_to(
        after_keys(keys_of(s.tokens), view_opt(start_after)),
        spec_clamp_limit(limit) as int,
    )
}

/// Every token identifier, paginated.
pub fn query_all_tokens(
    state: &State,
    start_after: Option<String>,
    limit: Option<u32>,
) -> (r: Result<TokensResponse, ContractError>)
    ensures
        all_tokens_post(state@, start_after, limit, r),
{
    let lim = clamp_limit(limit);
    let ghost ks = keys_of(state@.tokens);
    let n = state.tokens.len();
    let mut out: Vec<String> = Vec::new();
    let mut i: usize = 0;
    proof {
        assert(strings_view(out@) =~= after_keys(ks.take(0), view_opt(start_after)));
    }
    while i < n
        invariant
            i <= n,
            n == ks.len(),
            ks == keys_of(state@.tokens),
            strings_view(out@) == after_keys(ks.take(i as int), view_opt(start_after)),
        decreases n - i,
    {
        let ghost pre = strings_view(out@);
        let (k, _t) = state.tokens.entry_at(i);
        proof {
            assert(ks[i as int] == state@.tokens[i as int].0);
            assert(ks.take(i as int + 1).drop_last() =~= ks.take(i as int));
            assert(ks.take(i as int + 1).last() == ks[i as int]);
        }
        if key_after_exec(&start_after, k) {
            out.push(k.clone());
            proof {
                assert(strings_view(out@) =~= pre.push(ks[i as int]));
            }
        }
        i = i + 1;
    }
    proof {
        assert(ks.take(n as int) =~= ks);
    }
    out.truncate(lim);
    proof {
        let full = after_keys(ks, view_opt(start_after));
        if lim <= full.len() {
            assert(strings_view(out@) =~= full.take(lim as int));
        } else {
            assert(strings_view(out@) =~= full);
        }
    }
    Ok(TokensResponse { tokens: out })
}

/// The contract's configuration.
pub fn query_contract_info(state: &State) -> (r: ContractInfoResponse)
    ensures
        r.name@ == state@.name,
        r.symbol@ == state@.symbol,
{
    ContractInfoResponse {
        name: state.contract_info.name.clone(),
        symbol: state.contract_info.symbol.clone(),
    }
}

/// What `query_book` answers: the overlay record, or `TokenNotFound`.
pub open spec fn book_post(
    s: StateV,
    token_id: Seq<char>,
    r: Result<Book, ContractError>,
) -> bool {
    match assoc_get(s.books, token_id) {
        None => r matches Err(e) && e == ContractError::TokenNotFound,
        Some(b) => r matches Ok(book) && book@ == b,
    }
}

/// One book record.
pub fn query_book(state: &State, token_id: String) -> (r: Result<Book, ContractError>)
    ensures
        book_post(state@, token_id@, r),
{
    match state.books.get(&token_id) {
        None => Err(ContractError::TokenNotFound),
        Some(b) => Ok(b.clone()),
    }
}

/// Every book record, up to the scan bound.
pub fn query_all_books(state: &State) -> (r: Vec<(String, Book)>)
    ensures
        book_pairs_view(r@) == take_up_to(state@.books, MAX_BOOKS as int),
{
    let ghost s = state@.books;
    let n = state.books.len();
    let mut out: Vec<(String, Book)> = Vec::new();
    let mut i: usize = 0;
    proof {
        assert(book_pairs_view(out@) =~= s.take(0));
    }
    while i < n && i < MAX_BOOKS
        invariant
            i <= n,
            i <= MAX_BOOKS,
            n == s.len(),
            s == state@.books,
            book_pairs_view(out@) == s.take(i as int),
        decreases n - i,
    {
        let ghost pre = book_pairs_view(out@);
        let (k, b) = state.books.entry_at(i);
        out.push((k.clone(), b.clone()));
        proof {
            assert(book_pairs_view(out@) =~= pre.push(s[i as int]));
            assert(s.take(i as int + 1) =~= s.take(i as int).push(s[i as int]));
        }
        i = i + 1;
    }
    proof {
        if n <= MAX_BOOKS {
            assert(s.take(i as int) =~= take_up_to(s, MAX_BOOKS as int));
        } else {
            assert(s.take(i as int) =~= take_up_to(s, MAX_BOOKS as int));
        }
    }
    out
}

/// Every borrowed book with its borrower, up to the scan bound.
pub fn query_borrowed_books(state: &State) -> (r: Vec<(String, Book, String)>)
    ensures
        borrowed_view(r@) == borrowed_join(
            take_up_to(state@.borrowers, MAX_BOOKS as int),
            state@.books,
        ),
{
    let ghost s = state@.borrowers;
    let ghost prefix = take_up_to(state@.borrowers, MAX_BOOKS as int);
    let n = state.borrowers.len();
    let mut out: Vec<(String, Book, String)> = Vec::new();
    let mut i: usize = 0;
    proof {
        assert(borrowed_view(out@) =~= borrowed_join(s.take(0), state@.books));
    }
    while i < n && i < MAX_BOOKS
        invariant
            i <= n,
            i <= MAX_BOOKS,
            n == s.len(),
            s == state@.borrowers,
            borrowed_view(out@) == borrowed_join(s.take(i as int), state@.books),
        decreases n - i,
    {
        let ghost pre = borrowed_view(out@);
        let (k, borrower) = state.borrowers.entry_at(i);
        proof {
            assert(s.take(i as int + 1).drop_last() =~= s.take(i as int));
            assert(s.take(i as int + 1).last() == s[i as int]);
        }
        match state.books.get(k) {
            Some(b) => {
                out.push((k.clone(), b.clone(), borrower.clone()));
                proof {
                    assert(borrowed_view(out@) =~= pre.push(
                        (s[i as int].0, assoc_get(state@.books, s[i as int].0)->Some_0, s[i as int].1),
                    ));
                }
            },
            None => {},
        }
        i = i + 1;
    }
    proof {
        assert(s.take(i as int) =~= take_up_to(s, MAX_BOOKS as int));
    }
    out
}

/// Every book borrowed by the given address, up to the scan bound.
pub fn query_my_borrowed_books(state: &State, borrower: String) -> (r: Vec<(String, Book)>)
    ensures
        book_pairs_view(r@) == my_borrowed_join(
            take_up_to(state@.borrowers, MAX_BOOKS as int),
            state@.books,
            borrower@,
        ),
{
    let ghost s = state@.borrowers;
    let n = state.borrowers.len();
    let mut out: Vec<(String, Book)> = Vec::new();
    let mut i: usize = 0;
    proof {
        assert(book_pairs_view(out@) =~= my_borrowed_join(s.take(0), state@.books, borrower@));
    }
    while i < n && i < MAX_BOOKS
        invariant
            i <= n,
            i <= MAX_BOOKS,
            n == s.len(),
            s == state@.borrowers,
            book_pairs_view(out@) == my_borrowed_join(s.take(i as int), state@.books, borrower@),
        decreases n - i,
    {
        let ghost pre = book_pairs_view(out@);
        let (k, current) = state.borrowers.entry_at(i);
        proof {
            assert(s.take(i as int + 1).drop_last() =~= s.take(i as int));
            assert(s.take(i as int + 1).last() == s[i as int]);
        }
        if *current == borrower {
            match state.books.get(k) {
                Some(b) => {
                    out.push((k.clone(), b.clone()));
                    proof {
                        assert(book_pairs_view(out@) =~= pre.push(
                            (s[i as int].0, assoc_get(state@.books, s[i as int].0)->Some_0),
                        ));
                    }
                },
                None => {},
            }
        }
        i = i + 1;
    }
    proof {
        assert(s.take(i as int) =~= take_up_to(s, MAX_BOOKS as int));
    }
    out
}

/// Every book nobody currently borrows, up to the scan bound.
pub fn query_available_books(state: &State) -> (r: Vec<(String, Book)>)
    ensures
        book_pairs_view(r@) == available_join(
            take_up_to(state@.books, MAX_BOOKS as int),
            state@.borrowers,
        ),
{
    let ghost s = state@.books;
    let n = state.books.len();
    let mut out: Vec<(String, Book)> = Vec::new();
    let mut i: usize = 0;
    proof {
        assert(book_pairs_view(out@) =~= available_join(s.take(0), state@.borrowers));
    }
    while i < n && i < MAX_BOOKS
        invariant
            i <= n,
            i <= MAX_BOOKS,
            n == s.len(),
            s == state@.books,
            book_pairs_view(out@) == available_join(s.take(i as int), state@.borrowers),
        decreases n - i,
    {
        let ghost pre = book_pairs_view(out@);
        let (k, b) = state.books.entry_at(i);
        proof {
            assert(s.take(i as int + 1).drop_last() =~= s.take(i as int));
            assert(s.take(i as int + 1).last() == s[i as int]);
        }
        if !state.borrowers.contains_key(k) {
            out.push((k.clone(), b.clone()));
            proof {
                assert(book_pairs_view(out@) =~= pre.push((s[i as int].0, s[i as int].1)));
            }
        }
        i = i + 1;
    }
    proof {
        assert(s.take(i as int) =~= take_up_to(s, MAX_BOOKS as int));
    }
    out
}

/// A burned token is gone for good: after a successful burn the count has
/// shrunk by exactly one, and an ownership query for the identifier fails
/// `TokenNotFound`.
pub proof fn lemma_burned_token_not_found(
    pre: StateV,
    post: StateV,
    block: BlockInfo,
    sender: Seq<char>,
    token_id: Seq<char>,
    include_expired: Option<bool>,
    qr: Result<OwnerOfResponse, ContractError>,
)
    requires
        crate::contract::burn_post(pre, post, sender, token_id, Ok(())),
        owner_of_post(post, block, token_id, include_expired, qr),
    ensures
        qr matches Err(e) && e == ContractError::TokenNotFound,
        post.tokens.len() == pre.tokens.len() - 1,
{
}

/// Routes one read-only message to its query. The message set is closed,
/// so the dispatch is an exhaustive match.
pub fn query(state: &State, env: &BlockInfo, msg: QueryMsg) -> (r: Result<
    QueryAnswer,
    ContractError,
>)
    requires
        state.wf(),
    ensures
        match msg {
            QueryMsg::OwnerOf { token_id, include_expired } => match r {
                Ok(a) => a matches QueryAnswer::OwnerOf(resp) && owner_of_post(
                    state@,
                    *env,
                    token_id@,
                    include_expired,
                    Ok(resp),
                ),
                Err(e) => owner_of_post(state@, *env, token_id@, include_expired, Err(e)),
            },
            QueryMsg::Approval { token_id, spender, include_expired } => match r {
                Ok(a) => a matches QueryAnswer::Approval(resp) && approval_post(
                    state@,
                    *env,
                    token_id@,
                    spender@,
                    include_expired,
                    Ok(resp),
                ),
                Err(e) => approval_post(state@, *env, token_id@, spender@, include_expired, Err(e)),
            },
            QueryMsg::Approvals { token_id, include_expired } => match r {
                Ok(a) => a matches QueryAnswer::Approvals(resp) && approvals_post(
                    state@,
                    *env,
                    token_id@,
                    include_expired,
                    Ok(resp),
                ),
                Err(e) => approvals_post(state@, *env, token_id@, include_expired, Err(e)),
            },
            QueryMsg::AllOperators { owner, include_expired, start_after, limit } => match r {
                Ok(a) => a matches QueryAnswer::Operators(resp) && all_operators_post(
                    state@,
                    *env,
                    owner@,
                    include_expired,
                    start_after,
                    limit,
                    Ok(resp),
                ),
                Err(e) => false,
            },
            QueryMsg::NumTokens {} => r matches Ok(a) && a matches QueryAnswer::NumTokens(resp)
                && resp.count == state@.tokens.len(),
            QueryMsg::NftInfo { token_id } => match r {
                Ok(a) => a matches QueryAnswer::NftInfo(resp) && nft_info_post(
                    state@,
                    token_id@,
                    Ok(resp),
                ),
                Err(e) => nft_info_post(state@, token_id@, Err(e)),
            },
            QueryMsg::AllNftInfo { token_id, include_expired } => match r {
                Ok(a) => a matches QueryAnswer::AllNftInfo(resp) && all_nft_info_post(
                    state@,
                    *env,
                    token_id@,
                    include_expired,
                    Ok(resp),
                ),
                Err(e) => all_nft_info_post(state@, *env, token_id@, include_expired, Err(e)),
            },
            QueryMsg::Tokens { owner, start_after, limit } => match r {
                Ok(a) => a matches QueryAnswer::Tokens(resp) && tokens_post(
                    state@,
                    owner@,
                    start_after,
                    limit,
                    Ok(resp),
                ),
                Err(e) => false,
            },
            QueryMsg::AllTokens { start_after, limit } => match r {
                Ok(a) => a matches QueryAnswer::Tokens(resp) && all_tokens_post(
                    state@,
                    start_after,
                    limit,
                    Ok(resp),
                ),
                Err(e) => false,
            },
            QueryMsg::ContractInfo {} => r matches Ok(a) && a matches QueryAnswer::ContractInfo(c)
                && c.name@ == state@.name && c.symbol@ == state@.symbol,
            QueryMsg::GetBorrower { token_id } => r matches Ok(a) && a
                matches QueryAnswer::Borrower(b) && view_opt(b) == assoc_get(
                state@.borrowers,
                token_id@,
            ),
            QueryMsg::GetBook { token_id } => match r {
                Ok(a) => a matches QueryAnswer::Book(book) && book_post(
                    state@,
                    token_id@,
                    Ok(book),
                ),
                Err(e) => book_post(state@, token_id@, Err(e)),
            },
            QueryMsg::GetAllBooks {} => r matches Ok(a) && a matches QueryAnswer::AllBooks(books)
                && book_pairs_view(books@) == take_up_to(state@.books, MAX_BOOKS as int),
            QueryMsg::GetBorrowedBooks {} => r matches Ok(a) && a
                matches QueryAnswer::BorrowedBooks(books) && borrowed_view(books@) == borrowed_join(
                take_up_to(state@.borrowers, MAX_BOOKS as int),
                state@.books,
            ),
            QueryMsg::GetMyBorrowedBooks { borrower } => r matches Ok(a) && a
                matches QueryAnswer::MyBorrowedBooks(books) && book_pairs_view(books@)
                == my_borrowed_join(
                take_up_to(state@.borrowers, MAX_BOOKS as int),
                state@.books,
                borrower@,
            ),
            QueryMsg::GetAvailableBooks {} => r matches Ok(a) && a
                matches QueryAnswer::AvailableBooks(books) && book_pairs_view(books@)
                == available_join(take_up_to(state@.books, MAX_BOOKS as int), state@.borrowers),
        },
{
    match msg {
        QueryMsg::OwnerOf { token_id, include_expired } => match query_owner_of(
            state,
            env,
            token_id,
            include_expired,
        ) {
            Ok(resp) => Ok(QueryAnswer::OwnerOf(resp)),
            Err(e) => Err(e),
        },
        QueryMsg::Approval { token_id, spender, include_expired } => match query_approval(
            state,
            env,
            token_id,
            spender,
            include_expired,
        ) {
            Ok(resp) => Ok(QueryAnswer::Approval(resp)),
            Err(e) => Err(e),
        },
        QueryMsg::Approvals { token_id, include_expired } => match query_approvals(
            state,
            env,
            token_id,
            include_expired,
        ) {
            Ok(resp) => Ok(QueryAnswer::Approvals(resp)),
            Err(e) => Err(e),
        },
        QueryMsg::AllOperators { owner, include_expired, start_after, limit } => match query_all_operators(
            state,
            env,
            owner,
            include_expired,
            start_after,
            limit,
        ) {
            Ok(resp) => Ok(QueryAnswer::Operators(resp)),
            Err(e) => Err(e),
        },
        QueryMsg::NumTokens {} => Ok(QueryAnswer::NumTokens(query_num_tokens(state))),
        QueryMsg::NftInfo { token_id } => match query_nft_info(state, token_id) {
            Ok(resp) => Ok(QueryAnswer::NftInfo(resp)),
            Err(e) => Err(e),
        },
        QueryMsg::AllNftInfo { token_id, include_expired } => match query_all_nft_info(
            state,
            env,
            token_id,
            include_expired,
        ) {
            Ok(resp) => Ok(QueryAnswer::AllNftInfo(resp)),
            Err(e) => Err(e),
        },
        QueryMsg::Tokens { owner, start_after, limit } => match query_tokens(
            state,
            owner,
            start_after,
            limit,
        ) {
            Ok(resp) => Ok(QueryAnswer::Tokens(resp)),
            Err(e) => Err(e),
        },
        QueryMsg::AllTokens { start_after, limit } => match query_all_tokens(
            state,
            start_after,
            limit,
        ) {
            Ok(resp) => Ok(QueryAnswer::Tokens(resp)),
            Err(e) => Err(e),
        },
        QueryMsg::ContractInfo {} => Ok(QueryAnswer::ContractInfo(query_contract_info(state))),
        QueryMsg::GetBorrower { token_id } => {
            let b = match state.borrowers.get(&token_id) {
                Some(addr) => Some(addr.clone()),
                None => None,
            };
            Ok(QueryAnswer::Borrower(b))
        },
        QueryMsg::GetBook { token_id } => match query_book(state, token_id) {
            Ok(book) => Ok(QueryAnswer::Book(book)),
            Err(e) => Err(e),
        },
        QueryMsg::GetAllBooks {} => Ok(QueryAnswer::AllBooks(query_all_books(state))),
        QueryMsg::GetBorrowedBooks {} => Ok(
            QueryAnswer::BorrowedBooks(query_borrowed_books(state)),
        ),
        QueryMsg::GetMyBorrowedBooks { borrower } => Ok(
            QueryAnswer::MyBorrowedBooks(query_my_borrowed_books(state, borrower)),
        ),
        QueryMsg::GetAvailableBooks {} => Ok(
            QueryAnswer::AvailableBooks(query_available_books(state)),
        ),
    }
}

} // verus!
