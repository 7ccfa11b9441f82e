//! The mutating workflows: instantiate, transfer, send, the approval
//! lifecycle, mint and burn, and the legacy book overlay.
//!
//! Every workflow is all-or-nothing: it either commits its whole effect or
//! returns an error and leaves the state exactly as it was. Each has a
//! transition predicate stating, over the state views, what it did for
//! every possible input.

use vstd::prelude::*;

use crate::auth::can_act;
use crate::auth::default_expiration;
use crate::auth::lemma_upsert_approval_unique;
use crate::auth::operator_grant;
use crate::auth::remove_approval;
use crate::auth::remove_approval_vec;
use crate::auth::spec_can_act;
use crate::auth::upsert_approval;
use crate::auth::upsert_approval_vec;
use crate::error::ContractError;
use crate::expiration::BlockInfo;
use crate::expiration::Expiration;
use crate::msg::ExecuteMsg;
use crate::msg::ForwardMsg;
use crate::msg::InstantiateMsg;
use crate::msg::Response;
use crate::state::unique_spenders;
use crate::state::Book;
use crate::state::BookV;
use crate::state::ContractInfoResponse;
use crate::state::Metadata;
use crate::state::MetadataV;
use crate::state::State;
use crate::state::StateV;
use crate::state::TokenInfo;
use crate::state::TokenInfoV;
use crate::strmap::assoc_get;
use crate::strmap::lemma_assoc_some_index;
use crate::strmap::lemma_values_prop_preserved;
use crate::strmap::sorted_al;
use crate::strmap::StrMap;

verus! {

/// The state-relevant outcome of a call: success, or which error it failed
/// with.
pub open spec fn outcome(r: Result<Response, ContractError>) -> Result<(), ContractError> {
    match r {
        Ok(_) => Ok(()),
        Err(e) => Err(e),
    }
}

/// The contract configuration is never touched after instantiation.
pub open spec fn config_unchanged(pre: StateV, post: StateV) -> bool {
    &&& post.name == pre.name
    &&& post.symbol == pre.symbol
    &&& post.minter == pre.minter
}

/// Everything but the token store is untouched.
pub open spec fn only_tokens_changed(pre: StateV, post: StateV) -> bool {
    &&& config_unchanged(pre, post)
    &&& post.operators == pre.operators
    &&& post.books == pre.books
    &&& post.borrowers == pre.borrowers
}

/// The token store holds `v` under `k` and every other key is untouched.
pub open spec fn tokens_written(pre: StateV, post: StateV, k: Seq<char>, v: TokenInfoV) -> bool {
    &&& assoc_get(post.tokens, k) == Some(v)
    &&& forall|q: Seq<char>| q != k ==> assoc_get(post.tokens, q) == assoc_get(pre.tokens, q)
}

/// What a transfer does: absent token fails `TokenNotFound`; an
/// unauthorized caller fails `Unauthorized`; otherwise the token's owner
/// becomes the recipient, its approvals are reset to empty, its metadata is
/// kept, and nothing else changes.
pub open spec fn transfer_post(
    pre: StateV,
    post: StateV,
    block: BlockInfo,
    sender: Seq<char>,
    recipient: Seq<char>,
    token_id: Seq<char>,
    r: Result<(), ContractError>,
) -> bool {
    match assoc_get(pre.tokens, token_id) {
        None => r == Err::<(), ContractError>(ContractError::TokenNotFound) && post == pre,
        Some(t) => {
            if !spec_can_act(sender, t, pre.operators, block) {
                r == Err::<(), ContractError>(ContractError::Unauthorized) && post == pre
            } else {
                &&& r is Ok
                &&& tokens_written(
                    pre,
                    post,
                    token_id,
                    TokenInfoV { owner: recipient, approvals: Seq::empty(), metadata: t.metadata },
                )
                &&& post.tokens.len() == pre.tokens.len()
                &&& only_tokens_changed(pre, post)
            }
        },
    }
}

/// What an approval grant does: absent token fails `TokenNotFound`; a
/// caller other than the owner fails `Unauthorized` (delegates may not
/// re-delegate); otherwise the spender's record is upserted with the given
/// expiration (`Never` when omitted) and nothing else changes.
pub open spec fn approve_post(
    pre: StateV,
    post: StateV,
    sender: Seq<char>,
    spender: Seq<char>,
    token_id: Seq<char>,
    expires: Option<Expiration>,
    r: Result<(), ContractError>,
) -> bool {
    match assoc_get(pre.tokens, token_id) {
        None => r == Err::<(), ContractError>(ContractError::TokenNotFound) && post == pre,
        Some(t) => {
            if t.owner != sender {
                r == Err::<(), ContractError>(ContractError::Unauthorized) && post == pre
            } else {
                &&& r is Ok
                &&& tokens_written(
                    pre,
                    post,
                    token_id,
                    TokenInfoV {
                        owner: t.owner,
                        approvals: upsert_approval(
                            t.approvals,
                            spender,
                            default_expiration(expires),
                        ),
                        metadata: t.metadata,
                    },
                )
                &&& post.tokens.len() == pre.tokens.len()
                &&& only_tokens_changed(pre, post)
            }
        },
    }
}

/// What a revocation does: the same owner-only gate as a grant; the
/// spender's record is removed if present (silently a no-op otherwise) and
/// nothing else changes.
pub open spec fn revoke_post(
    pre: StateV,
    post: StateV,
    sender: Seq<char>,
    spender: Seq<char>,
    token_id: Seq<char>,
    r: Result<(), ContractError>,
) -> bool {
    match assoc_get(pre.tokens, token_id) {
        None => r == Err::<(), ContractError>(ContractError::TokenNotFound) && post == pre,
        Some(t) => {
            if t.owner != sender {
                r == Err::<(), ContractError>(ContractError::Unauthorized) && post == pre
            } else {
                &&& r is Ok
                &&& tokens_written(
                    pre,
                    post,
                    token_id,
                    TokenInfoV {
                        owner: t.owner,
                        approvals: remove_approval(t.approvals, spender),
                        metadata: t.metadata,
                    },
                )
                &&& post.tokens.len() == pre.tokens.len()
                &&& only_tokens_changed(pre, post)
            }
        },
    }
}

/// What granting an operator does: always succeeds for the caller's own
/// relation; the grant for (caller, operator) is written with the given
/// expiration (`Never` when omitted), every other grant is untouched.
pub open spec fn approve_all_post(
    pre: StateV,
    post: StateV,
    sender: Seq<char>,
    operator: Seq<char>,
    expires: Option<Expiration>,
    r: Result<(), ContractError>,
) -> bool {
    &&& r is Ok
    &&& operator_grant(post.operators, sender, operator) == Some(default_expiration(expires))
    &&& forall|o: Seq<char>, p: Seq<char>|
        !(o == sender && p == operator) ==> #[trigger] operator_grant(post.operators, o, p)
            == operator_grant(pre.operators, o, p)
    &&& config_unchanged(pre, post)
    &&& post.tokens == pre.tokens
    &&& post.books == pre.books
    &&& post.borrowers == pre.borrowers
}

/// What revoking an operator does: always succeeds; the grant for
/// (caller, operator) is gone — removal is unconditional, whatever its
/// expiration state — and every other grant is untouched.
pub open spec fn revoke_all_post(
    pre: StateV,
    post: StateV,
    sender: Seq<char>,
    operator: Seq<char>,
    r: Result<(), ContractError>,
) -> bool {
    &&& r is Ok
    &&& operator_grant(post.operators, sender, operator) is None
    &&& forall|o: Seq<char>, p: Seq<char>|
        !(o == sender && p == operator) ==> #[trigger] operator_grant(post.operators, o, p)
            == operator_grant(pre.operators, o, p)
    &&& config_unchanged(pre, post)
    &&& post.tokens == pre.tokens
    &&& post.books == pre.books
    &&& post.borrowers == pre.borrowers
}

/// What a mint does: a colliding identifier fails `Claimed` and leaves the
/// prior token record and the count unchanged; otherwise the token is
/// created with the given owner, empty approvals and the given metadata,
/// and the count grows by exactly one.
pub open spec fn mint_post(
    pre: StateV,
    post: StateV,
    token_id: Seq<char>,
    owner: Seq<char>,
    metadata: MetadataV,
    r: Result<(), ContractError>,
) -> bool {
    if assoc_get(pre.tokens, token_id) is Some {
        r == Err::<(), ContractError>(ContractError::Claimed) && post == pre
    } else {
        &&& r is Ok
        &&& tokens_written(
            pre,
            post,
            token_id,
            TokenInfoV { owner, approvals: Seq::empty(), metadata },
        )
        &&& post.tokens.len() == pre.tokens.len() + 1
        &&& only_tokens_changed(pre, post)
    }
}

/// What a burn does: absent token fails `TokenNotFound`; a caller other
/// than the owner fails `Unauthorized` (burn is owner-exclusive, approvals
/// and operators do not count); otherwise the token is gone and the count
/// shrinks by exactly one.
pub open spec fn burn_post(
    pre: StateV,
    post: StateV,
    sender: Seq<char>,
    token_id: Seq<char>,
    r: Result<(), ContractError>,
) -> bool {
    match assoc_get(pre.tokens, token_id) {
        None => r == Err::<(), ContractError>(ContractError::TokenNotFound) && post == pre,
        Some(t) => {
            if t.owner != sender {
                r == Err::<(), ContractError>(ContractError::Unauthorized) && post == pre
            } else {
                &&& r is Ok
                &&& assoc_get(post.tokens, token_id) is None
                &&& forall|q: Seq<char>|
                    q != token_id ==> assoc_get(post.tokens, q) == assoc_get(pre.tokens, q)
                &&& post.tokens.len() == pre.tokens.len() - 1
                &&& only_tokens_changed(pre, post)
            }
        },
    }
}

/// What the legacy add does: it writes the overlay book record and a full
/// token record (owner, empty approvals, the book fields as metadata) under
/// the same identifier, overwriting either if present; it always succeeds.
pub open spec fn add_book_post(
    pre: StateV,
    post: StateV,
    token_id: Seq<char>,
    title: Seq<char>,
    author: Seq<char>,
    url: Seq<char>,
    owner: Seq<char>,
    r: Result<(), ContractError>,
) -> bool {
    &&& r is Ok
    &&& assoc_get(post.books, token_id) == Some(BookV { title, author, url, owner })
    &&& forall|q: Seq<char>| q != token_id ==> assoc_get(post.books, q) == assoc_get(pre.books, q)
    &&& tokens_written(
        pre,
        post,
        token_id,
        TokenInfoV {
            owner,
            approvals: Seq::empty(),
            metadata: MetadataV { title, author, url },
        },
    )
    &&& (assoc_get(pre.tokens, token_id) is Some ==> post.tokens.len() == pre.tokens.len())
    &&& (assoc_get(pre.tokens, token_id) is None ==> post.tokens.len() == pre.tokens.len() + 1)
    &&& config_unchanged(pre, post)
    &&& post.operators == pre.operators
    &&& post.borrowers == pre.borrowers
}

/// What a borrow does: a book already borrowed fails `Unauthorized`
/// (deliberately that kind, not a distinct conflict); otherwise the
/// borrower is recorded and nothing else changes.
pub open spec fn borrow_book_post(
    pre: StateV,
    post: StateV,
    token_id: Seq<char>,
    borrower: Seq<char>,
    r: Result<(), ContractError>,
) -> bool {
    if assoc_get(pre.borrowers, token_id) is Some {
        r == Err::<(), ContractError>(ContractError::Unauthorized) && post == pre
    } else {
        &&& r is Ok
        &&& assoc_get(post.borrowers, token_id) == Some(borrower)
        &&& forall|q: Seq<char>|
            q != token_id ==> assoc_get(post.borrowers, q) == assoc_get(pre.borrowers, q)
        &&& config_unchanged(pre, post)
        &&& post.tokens == pre.tokens
        &&& post.operators == pre.operators
        &&& post.books == pre.books
    }
}

/// What a return does: it fails `Unauthorized` unless the caller is the
/// recorded borrower (an absent record fails the same way); otherwise the
/// borrower record is cleared and nothing else changes.
pub open spec fn return_book_post(
    pre: StateV,
    post: StateV,
    sender: Seq<char>,
    token_id: Seq<char>,
    r: Result<(), ContractError>,
) -> bool {
    match assoc_get(pre.borrowers, token_id) {
        None => r == Err::<(), ContractError>(ContractError::Unauthorized) && post == pre,
        Some(b) => {
            if b != sender {
                r == Err::<(), ContractError>(ContractError::Unauthorized) && post == pre
            } else {
                &&& r is Ok
                &&& assoc_get(post.borrowers, token_id) is None
                &&& forall|q: Seq<char>|
                    q != token_id ==> assoc_get(post.borrowers, q) == assoc_get(pre.borrowers, q)
                &&& config_unchanged(pre, post)
                &&& post.tokens == pre.tokens
                &&& post.operators == pre.operators
                &&& post.books == pre.books
            }
        },
    }
}

/// A response carrying only the audit attribute naming the action.
fn simple_response(action: &str) -> (r: Response)
    ensures
        r.forward is None,
        r.attributes@.len() == 1,
        r.attributes@[0].0@ == "action"@,
        r.attributes@[0].1@ == action@,
{
    let mut attributes: Vec<(String, String)> = Vec::new();
    attributes.push(("action".to_owned(), action.to_owned()));
    Response { attributes, forward: None }
}

/// Sets up a fresh ledger: the given name, symbol and minter, no tokens,
/// no grants, no books, no borrowers. The minter is recorded but mint is
/// not gated on it, as the message set stands today.
pub fn instantiate(msg: InstantiateMsg) -> (r: (State, Response))
    ensures
        r.0.wf(),
        r.0@.name == msg.name@,
        r.0@.symbol == msg.symbol@,
        r.0@.minter == msg.minter@,
        r.0@.tokens.len() == 0,
        r.0@.operators.len() == 0,
        r.0@.books.len() == 0,
        r.0@.borrowers.len() == 0,
        r.1.forward is None,
{
    let state = State {
        contract_info: ContractInfoResponse { name: msg.name, symbol: msg.symbol },
        minter: msg.minter,
        tokens: StrMap::new(),
        operators: StrMap::new(),
        books: StrMap::new(),
        borrowers: StrMap::new(),
    };
    (state, simple_response("instantiate"))
}

/// The shared transfer workflow: authorization check, ownership mutation
/// and approval reset as one atomic unit.
fn transfer_token(
    state: &mut State,
    block: &BlockInfo,
    sender: &String,
    recipient: &String,
    token_id: &String,
) -> (r: Result<(), ContractError>)
    requires
        old(state).wf(),
    ensures
        final(state).wf(),
        transfer_post(old(state)@, final(state)@, *block, sender@, recipient@, token_id@, r),
{
    match state.tokens.get(token_id) {
        None => {
            return Err(ContractError::TokenNotFound);
        },
        Some(t) => {
            if !can_act(sender, t, &state.operators, block) {
                return Err(ContractError::Unauthorized);
            }
        },
    }
    let token = match state.tokens.remove(token_id) {
        Some(t) => t,
        None => unreached(),
    };
    let new_token = TokenInfo {
        owner: recipient.clone(),
        approvals: Vec::new(),
        metadata: token.metadata,
    };
    proof {
        assert(new_token@.approvals =~= Seq::<crate::state::ApprovalV>::empty());
    }
    state.tokens.insert(token_id.clone(), new_token);
    proof {
        lemma_values_prop_preserved(
            old(state)@.tokens,
            state@.tokens,
            token_id@,
            |t: TokenInfoV| unique_spenders(t.approvals),
        );
        assert forall|i: int| 0 <= i < state@.tokens.len() implies unique_spenders(
            #[trigger] state@.tokens[i].1.approvals,
        ) by {}
    }
    Ok(())
}

/// Moves a token to another account. The caller must own it, hold a live
/// approval on it, or hold a live operator grant from its owner.
pub fn execute_transfer_nft(
    state: &mut State,
    env: &BlockInfo,
    sender: &String,
    recipient: String,
    token_id: String,
) -> (r: Result<Response, ContractError>)
    requires
        old(state).wf(),
    ensures
        final(state).wf(),
        transfer_post(
            old(state)@,
            final(state)@,
            *env,
            sender@,
            recipient@,
            token_id@,
            outcome(r),
        ),
        r matches Ok(resp) ==> resp.forward is None,
{
    match transfer_token(state, env, sender, &recipient, &token_id) {
        Err(e) => Err(e),
        Ok(()) => Ok(simple_response("transfer_nft")),
    }
}

/// Moves a token to a contract account and forwards a payload there. The
/// forwarded call is triggered only after the mutation commits.
pub fn execute_send_nft(
    state: &mut State,
    env: &BlockInfo,
    sender: &String,
    contract: String,
    token_id: String,
    msg: Vec<u8>,
) -> (r: Result<Response, ContractError>)
    requires
        old(state).wf(),
    ensures
        final(state).wf(),
        transfer_post(
            old(state)@,
            final(state)@,
            *env,
            sender@,
            contract@,
            token_id@,
            outcome(r),
        ),
        r matches Ok(resp) ==> resp.forward matches Some(f) && f.contract_addr@ == contract@
            && f.msg@ == msg@,
{
    match transfer_token(state, env, sender, &contract, &token_id) {
        Err(e) => Err(e),
        Ok(()) => {
            let mut resp = simple_response("send_nft");
            resp.forward = Some(ForwardMsg { contract_addr: contract, msg });
            Ok(resp)
        },
    }
}

/// Grants a spender the right to act on one token. Owner-only; re-granting
/// the same spender overwrites the expiration in place.
pub fn execute_approve(
    state: &mut State,
    _env: &BlockInfo,
    sender: &String,
    spender: String,
    token_id: String,
    expires: Option<Expiration>,
) -> (r: Result<Response, ContractError>)
    requires
        old(state).wf(),
    ensures
        final(state).wf(),
        approve_post(
            old(state)@,
            final(state)@,
            sender@,
            spender@,
            token_id@,
            expires,
            outcome(r),
        ),
        r matches Ok(resp) ==> resp.forward is None,
{
    match state.tokens.get(&token_id) {
        None => {
            return Err(ContractError::TokenNotFound);
        },
        Some(t) => {
            if !(t.owner == *sender) {
                return Err(ContractError::Unauthorized);
            }
        },
    }
    let exp = match expires {
        Some(e) => e,
        None => Expiration::Never,
    };
    let mut token = match state.tokens.remove(&token_id) {
        Some(t) => t,
        None => unreached(),
    };
    let ghost old_token = token@;
    proof {
        lemma_assoc_some_index(old(state)@.tokens, token_id@);
        let j = choose|j: int|
            0 <= j < old(state)@.tokens.len() && (#[trigger] old(state)@.tokens[j]).0 == token_id@
                && old(state)@.tokens[j].1 == old_token;
        assert(unique_spenders(old(state)@.tokens[j].1.approvals));
    }
    upsert_approval_vec(&mut token.approvals, spender, exp);
    proof {
        lemma_upsert_approval_unique(old_token.approvals, spender@, exp);
    }
    state.tokens.insert(token_id, token);
    proof {
        lemma_values_prop_preserved(
            old(state)@.tokens,
            state@.tokens,
            token_id@,
            |t: TokenInfoV| unique_spenders(t.approvals),
        );
        assert forall|i: int| 0 <= i < state@.tokens.len() implies unique_spenders(
            #[trigger] state@.tokens[i].1.approvals,
        ) by {}
    }
    Ok(simple_response("approve"))
}

/// Removes a spender's approval on one token. Owner-only; removing an
/// absent approval is a silent no-op.
pub fn execute_revoke(
    state: &mut State,
    _env: &BlockInfo,
    sender: &String,
    spender: String,
    token_id: String,
) -> (r: Result<Response, ContractError>)
    requires
        old(state).wf(),
    ensures
        final(state).wf(),
        revoke_post(old(state)@, final(state)@, sender@, spender@, token_id@, outcome(r)),
        r matches Ok(resp) ==> resp.forward is None,
{
    match state.tokens.get(&token_id) {
        None => {
            return Err(ContractError::TokenNotFound);
        },
        Some(t) => {
            if !(t.owner == *sender) {
                return Err(ContractError::Unauthorized);
            }
        },
    }
    let mut token = match state.tokens.remove(&token_id) {
        Some(t) => t,
        None => unreached(),
    };
    let ghost old_token = token@;
    proof {
        lemma_assoc_some_index(old(state)@.tokens, token_id@);
        let j = choose|j: int|
            0 <= j < old(state)@.tokens.len() && (#[trigger] old(state)@.tokens[j]).0 == token_id@
                && old(state)@.tokens[j].1 == old_token;
        assert(unique_spenders(old(state)@.tokens[j].1.approvals));
    }
    remove_approval_vec(&mut token.approvals, &spender);
    proof {
        crate::auth::lemma_remove_approval_unique(old_token.approvals, spender@);
    }
    state.tokens.insert(token_id, token);
    proof {
        lemma_values_prop_preserved(
            old(state)@.tokens,
            state@.tokens,
            token_id@,
            |t: TokenInfoV| unique_spenders(t.approvals),
        );
        assert forall|i: int| 0 <= i < state@.tokens.len() implies unique_spenders(
            #[trigger] state@.tokens[i].1.approvals,
        ) by {}
    }
    Ok(simple_response("revoke"))
}

/// Grants an operator the right to act on every token of the caller.
pub fn execute_approve_all(
    state: &mut State,
    _env: &BlockInfo,
    sender: &String,
    operator: String,
    expires: Option<Expiration>,
) -> (r: Result<Response, ContractError>)
    requires
        old(state).wf(),
    ensures
        final(state).wf(),
        approve_all_post(old(state)@, final(state)@, sender@, operator@, expires, outcome(r)),
        r matches Ok(resp) ==> resp.forward is None,
{
    let exp = match expires {
        Some(e) => e,
        None => Expiration::Never,
    };
    let mut inner = match state.operators.remove(sender) {
        Some(m) => m,
        None => StrMap::new(),
    };
    proof {
        lemma_assoc_some_index(old(state)@.operators, sender@);
        if assoc_get(old(state)@.operators, sender@) is Some {
            let j = choose|j: int|
                0 <= j < old(state)@.operators.len() && (#[trigger] old(
                    state,
                )@.operators[j]).0 == sender@ && old(state)@.operators[j].1 == inner@;
            assert(sorted_al(old(state)@.operators[j].1));
        }
    }
    let ghost pre_inner = inner@;
    inner.insert(operator, exp);
    state.operators.insert(sender.clone(), inner);
    proof {
        lemma_values_prop_preserved(
            old(state)@.operators,
            state@.operators,
            sender@,
            |m: crate::strmap::Entries<Expiration>| sorted_al(m),
        );
        assert forall|i: int| 0 <= i < state@.operators.len() implies sorted_al(
            #[trigger] state@.operators[i].1,
        ) by {}
        assert forall|o: Seq<char>, p: Seq<char>| !(o == sender@ && p == operator@)
            implies #[trigger] operator_grant(state@.operators, o, p) == operator_grant(
            old(state)@.operators,
            o,
            p,
        ) by {
            if o == sender@ {
                assert(assoc_get(pre_inner, p) == operator_grant(old(state)@.operators, o, p));
            }
        }
    }
    Ok(simple_response("approve_all"))
}

/// Removes an operator relation of the caller, whatever its expiration
/// state.
pub fn execute_revoke_all(
    state: &mut State,
    _env: &BlockInfo,
    sender: &String,
    operator: String,
) -> (r: Result<Response, ContractError>)
    requires
        old(state).wf(),
    ensures
        final(state).wf(),
        revoke_all_post(old(state)@, final(state)@, sender@, operator@, outcome(r)),
        r matches Ok(resp) ==> resp.forward is None,
{
    match state.operators.remove(sender) {
        None => Ok(simple_response("revoke_all")),
        Some(mut inner) => {
            proof {
                lemma_assoc_some_index(old(state)@.operators, sender@);
                let j = choose|j: int|
                    0 <= j < old(state)@.operators.len() && (#[trigger] old(
                        state,
                    )@.operators[j]).0 == sender@ && old(state)@.operators[j].1 == inner@;
                assert(sorted_al(old(state)@.operators[j].1));
            }
            let ghost pre_inner = inner@;
            let _ = inner.remove(&operator);
            state.operators.insert(sender.clone(), inner);
            proof {
                lemma_values_prop_preserved(
                    old(state)@.operators,
                    state@.operators,
                    sender@,
                    |m: crate::strmap::Entries<Expiration>| sorted_al(m),
                );
                assert forall|i: int| 0 <= i < state@.operators.len() implies sorted_al(
                    #[trigger] state@.operators[i].1,
                ) by {}
                assert forall|o: Seq<char>, p: Seq<char>| !(o == sender@ && p == operator@)
                    implies #[trigger] operator_grant(state@.operators, o, p) == operator_grant(
                    old(state)@.operators,
                    o,
                    p,
                ) by {
                    if o == sender@ {
                        assert(assoc_get(pre_inner, p) == operator_grant(
                            old(state)@.operators,
                            o,
                            p,
                        ));
                    }
                }
            }
            Ok(simple_response("revoke_all"))
        },
    }
}

/// Creates a token. A colliding identifier fails `Claimed`; minting is not
/// gated on the configured minter, as the message set stands today.
pub fn execute_mint(
    state: &mut State,
    _env: &BlockInfo,
    _sender: &String,
    token_id: String,
    owner: String,
    metadata: Metadata,
) -> (r: Result<Response, ContractError>)
    requires
        old(state).wf(),
    ensures
        final(state).wf(),
        mint_post(old(state)@, final(state)@, token_id@, owner@, metadata@, outcome(r)),
        r matches Ok(resp) ==> resp.forward is None,
{
    if state.tokens.contains_key(&token_id) {
        return Err(ContractError::Claimed);
    }
    let token = TokenInfo { owner, approvals: Vec::new(), metadata };
    proof {
        assert(token@.approvals =~= Seq::<crate::state::ApprovalV>::empty());
    }
    state.tokens.insert(token_id, token);
    proof {
        lemma_values_prop_preserved(
            old(state)@.tokens,
            state@.tokens,
            token_id@,
            |t: TokenInfoV| unique_spenders(t.approvals),
        );
        assert forall|i: int| 0 <= i < state@.tokens.len() implies unique_spenders(
            #[trigger] state@.tokens[i].1.approvals,
        ) by {}
    }
    Ok(simple_response("mint"))
}

/// Destroys a token. Owner-exclusive: approvals and operator grants do not
/// authorize a burn.
pub fn execute_burn(
    state: &mut State,
    _env: &BlockInfo,
    sender: &String,
    token_id: String,
) -> (r: Result<Response, ContractError>)
    requires
        old(state).wf(),
    ensures
        final(state).wf(),
        burn_post(old(state)@, final(state)@, sender@, token_id@, outcome(r)),
        r matches Ok(resp) ==> resp.forward is None,
{
    match state.tokens.get(&token_id) {
        None => {
            return Err(ContractError::TokenNotFound);
        },
        Some(t) => {
            if !(t.owner == *sender) {
                return Err(ContractError::Unauthorized);
            }
        },
    }
    let _ = state.tokens.remove(&token_id);
    proof {
        lemma_values_prop_preserved(
            old(state)@.tokens,
            state@.tokens,
            token_id@,
            |t: TokenInfoV| unique_spenders(t.approvals),
        );
        assert forall|i: int| 0 <= i < state@.tokens.len() implies unique_spenders(
            #[trigger] state@.tokens[i].1.approvals,
        ) by {}
    }
    Ok(simple_response("burn"))
}

/// Legacy: adds a book, writing the overlay record and a full token record
/// under the same identifier — the deliberate dual-write bridge.
pub fn execute_add_book(
    state: &mut State,
    _sender: &String,
    token_id: String,
    title: String,
    author: String,
    url: String,
    owner: String,
) -> (r: Result<Response, ContractError>)
    requires
        old(state).wf(),
    ensures
        final(state).wf(),
        add_book_post(
            old(state)@,
            final(state)@,
            token_id@,
            title@,
            author@,
            url@,
            owner@,
            outcome(r),
        ),
        r matches Ok(resp) ==> resp.forward is None,
{
    let book = Book {
        title: title.clone(),
        author: author.clone(),
        url: url.clone(),
        owner: owner.clone(),
    };
    state.books.insert(token_id.clone(), book);
    let metadata = Metadata { title, author, url };
    let token = TokenInfo { owner, approvals: Vec::new(), metadata };
    proof {
        assert(token@.approvals =~= Seq::<crate::state::ApprovalV>::empty());
    }
    state.tokens.insert(token_id, token);
    proof {
        lemma_values_prop_preserved(
            old(state)@.tokens,
            state@.tokens,
            token_id@,
            |t: TokenInfoV| unique_spenders(t.approvals),
        );
        assert forall|i: int| 0 <= i < state@.tokens.len() implies unique_spenders(
            #[trigger] state@.tokens[i].1.approvals,
        ) by {}
    }
    Ok(simple_response("add_book"))
}

/// Legacy: borrows a book if nobody holds it; "already borrowed" is
/// reported as `Unauthorized`.
pub fn execute_borrow_book(
    state: &mut State,
    _sender: &String,
    token_id: String,
    borrower: String,
) -> (r: Result<Response, ContractError>)
    requires
        old(state).wf(),
    ensures
        final(state).wf(),
        borrow_book_post(old(state)@, final(state)@, token_id@, borrower@, outcome(r)),
        r matches Ok(resp) ==> resp.forward is None,
{
    if state.borrowers.contains_key(&token_id) {
        return Err(ContractError::Unauthorized);
    }
    state.borrowers.insert(token_id, borrower);
    Ok(simple_response("borrow_book"))
}

/// Legacy: returns a borrowed book; only the recorded borrower may, and an
/// absent record fails the same `Unauthorized` way.
pub fn execute_return_book(
    state: &mut State,
    sender: &String,
    token_id: String,
) -> (r: Result<Response, ContractError>)
    requires
        old(state).wf(),
    ensures
        final(state).wf(),
        return_book_post(old(state)@, final(state)@, sender@, token_id@, outcome(r)),
        r matches Ok(resp) ==> resp.forward is None,
{
    match state.borrowers.get(&token_id) {
        None => {
            return Err(ContractError::Unauthorized);
        },
        Some(b) => {
            if !(*b == *sender) {
                return Err(ContractError::Unauthorized);
            }
        },
    }
    let _ = state.borrowers.remove(&token_id);
    Ok(simple_response("return_book"))
}

/// Routes one mutating message to its workflow. The message set is closed,
/// so the dispatch is an exhaustive match.
pub fn execute(
    state: &mut State,
    env: &BlockInfo,
    sender: &String,
    msg: ExecuteMsg,
) -> (r: Result<Response, ContractError>)
    requires
        old(state).wf(),
    ensures
        final(state).wf(),
        match msg {
            ExecuteMsg::TransferNft { recipient, token_id } => transfer_post(
                old(state)@,
                final(state)@,
                *env,
                sender@,
                recipient@,
                token_id@,
                outcome(r),
            ) && (r matches Ok(resp) ==> resp.forward is None),
            ExecuteMsg::SendNft { contract, token_id, msg } => transfer_post(
                old(state)@,
                final(state)@,
                *env,
                sender@,
                contract@,
                token_id@,
                outcome(r),
            ) && (r matches Ok(resp) ==> resp.forward matches Some(f) && f.contract_addr@
                == contract@ && f.msg@ == msg@),
            ExecuteMsg::Approve { spender, token_id, expires } => approve_post(
                old(state)@,
                final(state)@,
                sender@,
                spender@,
                token_id@,
                expires,
                outcome(r),
            ) && (r matches Ok(resp) ==> resp.forward is None),
            ExecuteMsg::Revoke { spender, token_id } => revoke_post(
                old(state)@,
                final(state)@,
                sender@,
                spender@,
                token_id@,
                outcome(r),
            ) && (r matches Ok(resp) ==> resp.forward is None),
            ExecuteMsg::ApproveAll { operator, expires } => approve_all_post(
                old(state)@,
                final(state)@,
                sender@,
                operator@,
                expires,
                outcome(r),
            ) && (r matches Ok(resp) ==> resp.forward is None),
            ExecuteMsg::RevokeAll { operator } => revoke_all_post(
                old(state)@,
                final(state)@,
                sender@,
                operator@,
                outcome(r),
            ) && (r matches Ok(resp) ==> resp.forward is None),
            ExecuteMsg::Mint { token_id, owner, metadata } => mint_post(
                old(state)@,
                final(state)@,
                token_id@,
                owner@,
                metadata@,
                outcome(r),
            ) && (r matches Ok(resp) ==> resp.forward is None),
            ExecuteMsg::Burn { token_id } => burn_post(
                old(state)@,
                final(state)@,
                sender@,
                token_id@,
                outcome(r),
            ) && (r matches Ok(resp) ==> resp.forward is None),
            ExecuteMsg::AddBook { token_id, title, author, url, owner } => add_book_post(
                old(state)@,
                final(state)@,
                token_id@,
                title@,
                author@,
                url@,
                owner@,
                outcome(r),
            ) && (r matches Ok(resp) ==> resp.forward is None),
            ExecuteMsg::BorrowBook { token_id, borrower } => borrow_book_post(
                old(state)@,
                final(state)@,
                token_id@,
                borrower@,
                outcome(r),
            ) && (r matches Ok(resp) ==> resp.forward is None),
            ExecuteMsg::ReturnBook { token_id } => return_book_post(
                old(state)@,
                final(state)@,
                sender@,
                token_id@,
                outcome(r),
            ) && (r matches Ok(resp) ==> resp.forward is None),
        },
{
    match msg {
        ExecuteMsg::TransferNft { recipient, token_id } => execute_transfer_nft(
            state,
            env,
            sender,
            recipient,
            token_id,
        ),
        ExecuteMsg::SendNft { contract, token_id, msg } => execute_send_nft(
            state,
            env,
            sender,
            contract,
            token_id,
            msg,
        ),
        ExecuteMsg::Approve { spender, token_id, expires } => execute_approve(
            state,
            env,
            sender,
            spender,
            token_id,
            expires,
        ),
        ExecuteMsg::Revoke { spender, token_id } => execute_revoke(
            state,
            env,
            sender,
            spender,
            token_id,
        ),
        ExecuteMsg::ApproveAll { operator, expires } => execute_approve_all(
            state,
            env,
            sender,
            operator,
            expires,
        ),
        ExecuteMsg::RevokeAll { operator } => execute_revoke_all(state, env, sender, operator),
        ExecuteMsg::Mint { token_id, owner, metadata } => execute_mint(
            state,
            env,
            sender,
            token_id,
            owner,
            metadata,
        ),
        ExecuteMsg::Burn { token_id } => execute_burn(state, env, sender, token_id),
        ExecuteMsg::AddBook { token_id, title, author, url, owner } => execute_add_book(
            state,
            sender,
            token_id,
            title,
            author,
            url,
            owner,
        ),
        ExecuteMsg::BorrowBook { token_id, borrower } => execute_borrow_book(
            state,
            sender,
            token_id,
            borrower,
        ),
        ExecuteMsg::ReturnBook { token_id } => execute_return_book(state, sender, token_id),
    }
}

} // verus!
