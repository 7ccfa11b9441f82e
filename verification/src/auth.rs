//! The authorization engine and the approval lifecycle.
//!
//! `can_act` is the pure decision: a caller may act on a token exactly when
//! they own it, hold a live per-token approval on it, or hold a live
//! operator grant from its owner. Approvals are upserted per spender —
//! granting the same spender again overwrites the expiration, never adds a
//! second record.

use vstd::prelude::*;

use crate::expiration::spec_is_expired;
use crate::expiration::BlockInfo;
use crate::expiration::Expiration;
use crate::state::approvals_view;
use crate::state::unique_spenders;
use crate::state::Approval;
use crate::state::ApprovalV;
use crate::state::TokenInfo;
use crate::strmap::assoc_get;
use crate::strmap::Entries;
use crate::strmap::StrMap;

verus! {

/// Whether the approval list carries a record for the caller that has not
/// expired.
pub open spec fn has_live_approval(s: Seq<ApprovalV>, caller: Seq<char>, block: BlockInfo) -> bool {
    exists|i: int|
        0 <= i < s.len() && (#[trigger] s[i]).spender == caller && !spec_is_expired(
            s[i].expires,
            block,
        )
}

/// The operator store's grant for an (owner, operator) pair, if any.
pub open spec fn operator_grant(
    ops: Entries<Entries<Expiration>>,
    owner: Seq<char>,
    operator: Seq<char>,
) -> Option<Expiration> {
    match assoc_get(ops, owner) {
        Some(inner) => assoc_get(inner, operator),
        None => None,
    }
}

/// Whether the operator store holds a grant for the pair that has not
/// expired.
pub open spec fn has_live_operator(
    ops: Entries<Entries<Expiration>>,
    owner: Seq<char>,
    caller: Seq<char>,
    block: BlockInfo,
) -> bool {
    match operator_grant(ops, owner, caller) {
        Some(e) => !spec_is_expired(e, block),
        None => false,
    }
}

/// The authorization decision: the caller may act on the token right now.
pub open spec fn spec_can_act(
    caller: Seq<char>,
    token: crate::state::TokenInfoV,
    ops: Entries<Entries<Expiration>>,
    block: BlockInfo,
) -> bool {
    ||| caller == token.owner
    ||| has_live_approval(token.approvals, caller, block)
    ||| has_live_operator(ops, token.owner, caller, block)
}

/// Decides whether the caller may act on the token as of the given block:
/// as its owner, through a live per-token approval, or through a live
/// operator grant from its owner.
pub fn can_act(
    caller: &String,
    token: &TokenInfo,
    operators: &StrMap<StrMap<Expiration>>,
    block: &BlockInfo,
) -> (r: bool)
    ensures
        r == spec_can_act(caller@, token@, operators@, *block),
{
    if token.owner == *caller {
        return true;
    }
    let n = token.approvals.len();
    let mut i: usize = 0;
    while i < n
        invariant
            i <= n,
            n == token.approvals@.len(),
            forall|j: int|
                0 <= j < i ==> !((#[trigger] token@.approvals[j]).spender == caller@
                    && !spec_is_expired(token@.approvals[j].expires, *block)),
        decreases n - i,
    {
        let a = &token.approvals[i];
        if a.spender == *caller && !a.expires.is_expired(block) {
            proof {
                assert(token@.approvals[i as int] == a@);
            }
            return true;
        }
        proof {
            assert(token@.approvals[i as int] == a@);
        }
        i = i + 1;
    }
    match operators.get(&token.owner) {
        Some(inner) => match inner.get(caller) {
            Some(e) => !e.is_expired(block),
            None => false,
        },
        None => false,
    }
}

/// The expiration a grant gets when none is given: never.
pub open spec fn default_expiration(o: Option<Expiration>) -> Expiration {
    match o {
        Some(e) => e,
        None => Expiration::Never,
    }
}

/// The approval list after a grant to a spender: an existing record for the
/// spender is overwritten in place, otherwise a record is appended.
pub open spec fn upsert_approval(
    s: Seq<ApprovalV>,
    spender: Seq<char>,
    expires: Expiration,
) -> Seq<ApprovalV> {
    if exists|i: int| 0 <= i < s.len() && (#[trigger] s[i]).spender == spender {
        let i = choose|i: int| 0 <= i < s.len() && (#[trigger] s[i]).spender == spender;
        s.update(i, ApprovalV { spender, expires })
    } else {
        s.push(ApprovalV { spender, expires })
    }
}

/// The approval list after a revocation: the record for the spender (lists
/// are spender-unique, so there is at most one) is removed; the rest is
/// kept in order. Revoking an absent approval is a silent no-op.
pub open spec fn remove_approval(s: Seq<ApprovalV>, spender: Seq<char>) -> Seq<ApprovalV> {
    if exists|i: int| 0 <= i < s.len() && (#[trigger] s[i]).spender == spender {
        let i = choose|i: int| 0 <= i < s.len() && (#[trigger] s[i]).spender == spender;
        s.remove(i)
    } else {
        s
    }
}

/// After a grant, the list holds the new record at one index, every other
/// index is an unchanged record of a different spender.
pub open spec fn single_grant(
    s: Seq<ApprovalV>,
    u: Seq<ApprovalV>,
    spender: Seq<char>,
    expires: Expiration,
) -> bool {
    exists|i: int|
        0 <= i < u.len() && (#[trigger] u[i]) == (ApprovalV { spender, expires }) && (forall|j: int|
            0 <= j < u.len() && j != i ==> (#[trigger] u[j]).spender != spender && u[j] == s[j])
}

/// Granting a spender leaves exactly one record for that spender — the new
/// grant — and every other spender's records untouched; spender-uniqueness
/// is preserved.
pub proof fn lemma_upsert_approval_unique(s: Seq<ApprovalV>, spender: Seq<char>, expires: Expiration)
    requires
        unique_spenders(s),
    ensures
        unique_spenders(upsert_approval(s, spender, expires)),
        single_grant(s, upsert_approval(s, spender, expires), spender, expires),
{
    let u = upsert_approval(s, spender, expires);
    if exists|i: int| 0 <= i < s.len() && (#[trigger] s[i]).spender == spender {
        let i = choose|i: int| 0 <= i < s.len() && (#[trigger] s[i]).spender == spender;
        assert(u == s.update(i, ApprovalV { spender, expires }));
        assert(u[i] == (ApprovalV { spender, expires }));
        assert forall|j: int| 0 <= j < u.len() && j != i implies (#[trigger] u[j]).spender
            != spender && u[j] == s[j] by {
            assert(u[j] == s[j]);
        }
    } else {
        let i = s.len() as int;
        assert(u == s.push(ApprovalV { spender, expires }));
        assert(u[i] == (ApprovalV { spender, expires }));
        assert forall|j: int| 0 <= j < u.len() && j != i implies (#[trigger] u[j]).spender
            != spender && u[j] == s[j] by {
            assert(u[j] == s[j]);
        }
    }
}

/// Granting the same spender twice is the same as granting it once with the
/// latest expiration: the earlier grant is fully overwritten.
pub proof fn lemma_upsert_approval_twice(
    s: Seq<ApprovalV>,
    spender: Seq<char>,
    e1: Expiration,
    e2: Expiration,
)
    requires
        unique_spenders(s),
    ensures
        upsert_approval(upsert_approval(s, spender, e1), spender, e2) == upsert_approval(
            s,
            spender,
            e2,
        ),
{
    let u1 = upsert_approval(s, spender, e1);
    lemma_upsert_approval_unique(s, spender, e1);
    let i1 = choose|i: int|
        0 <= i < u1.len() && (#[trigger] u1[i]) == (ApprovalV { spender, expires: e1 }) && (
        forall|j: int|
            0 <= j < u1.len() && j != i ==> (#[trigger] u1[j]).spender != spender && u1[j] == s[j]);
    let u2 = upsert_approval(u1, spender, e2);
    assert(u1[i1].spender == spender);
    let i2 = choose|i: int| 0 <= i < u1.len() && (#[trigger] u1[i]).spender == spender;
    assert(i2 == i1);
    assert(u2 == u1.update(i1, ApprovalV { spender, expires: e2 }));
    let w = upsert_approval(s, spender, e2);
    if exists|i: int| 0 <= i < s.len() && (#[trigger] s[i]).spender == spender {
        let iw = choose|i: int| 0 <= i < s.len() && (#[trigger] s[i]).spender == spender;
        assert(iw == i1) by {
            if iw != i1 {
                assert(u1[iw].spender != spender);
                assert(u1[iw] == s[iw]);
            }
        }
        assert(u2 =~= w);
    } else {
        assert(i1 == s.len() as int);
        assert(u2 =~= w);
    }
}

/// Applies a grant to an approval list in place: upsert per spender.
pub fn upsert_approval_vec(approvals: &mut Vec<Approval>, spender: String, expires: Expiration)
    requires
        unique_spenders(approvals_view(old(approvals)@)),
    ensures
        approvals_view(final(approvals)@) == upsert_approval(
            approvals_view(old(approvals)@),
            spender@,
            expires,
        ),
{
    let ghost os = approvals_view(approvals@);
    let n = approvals.len();
    let mut i: usize = 0;
    while i < n
        invariant
            i <= n,
            n == approvals@.len(),
            os == approvals_view(old(approvals)@),
            approvals_view(approvals@) == os,
            unique_spenders(os),
            forall|j: int| 0 <= j < i ==> (#[trigger] os[j]).spender != spender@,
        decreases n - i,
    {
        if approvals[i].spender == spender {
            proof {
                assert(os[i as int] == approvals@[i as int]@);
            }
            let _ = approvals.remove(i);
            approvals.insert(i, Approval { spender, expires });
            proof {
                let ns = approvals_view(approvals@);
                assert(ns =~= os.update(i as int, ApprovalV { spender: spender@, expires }));
                assert(os[i as int].spender == spender@);
                let c = choose|j: int| 0 <= j < os.len() && (#[trigger] os[j]).spender == spender@;
                if c != i as int {
                    if c < i as int {
                        assert(os[c].spender != os[i as int].spender);
                    } else {
                        assert(os[i as int].spender != os[c].spender);
                    }
                }
                assert(c == i as int);
            }
            return ;
        }
        proof {
            assert(os[i as int] == approvals@[i as int]@);
        }
        i = i + 1;
    }
    approvals.push(Approval { spender, expires });
    proof {
        let ns = approvals_view(approvals@);
        assert(ns =~= os.push(ApprovalV { spender: spender@, expires }));
    }
}

/// Removes the approval a spender holds, if any, in place.
pub fn remove_approval_vec(approvals: &mut Vec<Approval>, spender: &String)
    requires
        unique_spenders(approvals_view(old(approvals)@)),
    ensures
        approvals_view(final(approvals)@) == remove_approval(
            approvals_view(old(approvals)@),
            spender@,
        ),
{
    let ghost os = approvals_view(approvals@);
    let n = approvals.len();
    let mut i: usize = 0;
    while i < n
        invariant
            i <= n,
            n == approvals@.len(),
            os == approvals_view(old(approvals)@),
            approvals_view(approvals@) == os,
            unique_spenders(os),
            forall|j: int| 0 <= j < i ==> (#[trigger] os[j]).spender != spender@,
        decreases n - i,
    {
        if approvals[i].spender == *spender {
            proof {
                assert(os[i as int] == approvals@[i as int]@);
            }
            let _ = approvals.remove(i);
            proof {
                let ns = approvals_view(approvals@);
                assert(ns =~= os.remove(i as int));
                assert(os[i as int].spender == spender@);
                let c = choose|j: int| 0 <= j < os.len() && (#[trigger] os[j]).spender == spender@;
                if c != i as int {
                    if c < i as int {
                        assert(os[c].spender != os[i as int].spender);
                    } else {
                        assert(os[i as int].spender != os[c].spender);
                    }
                }
                assert(c == i as int);
            }
            return ;
        }
        proof {
            assert(os[i as int] == approvals@[i as int]@);
        }
        i = i + 1;
    }
}

/// Removing a spender's record keeps every other record and the uniqueness
/// of the list.
pub proof fn lemma_remove_approval_unique(s: Seq<ApprovalV>, spender: Seq<char>)
    requires
        unique_spenders(s),
    ensures
        unique_spenders(remove_approval(s, spender)),
        forall|j: int|
            0 <= j < remove_approval(s, spender).len() ==> (#[trigger] remove_approval(
                s,
                spender,
            )[j]).spender != spender,
{
    let u = remove_approval(s, spender);
    if exists|i: int| 0 <= i < s.len() && (#[trigger] s[i]).spender == spender {
        let i = choose|i: int| 0 <= i < s.len() && (#[trigger] s[i]).spender == spender;
        assert(u == s.remove(i));
        assert forall|j: int| 0 <= j < u.len() implies (#[trigger] u[j]).spender != spender by {
            let jj = if j < i {
                j
            } else {
                j + 1
            };
            assert(u[j] == s[jj]);
        }
        assert forall|p: int, q: int| 0 <= p < q < u.len() implies (#[trigger] u[p]).spender != (
        #[trigger] u[q]).spender by {
            let pp = if p < i {
                p
            } else {
                p + 1
            };
            let qq = if q < i {
                q
            } else {
                q + 1
            };
            assert(u[p] == s[pp]);
            assert(u[q] == s[qq]);
        }
    }
}

/// The owner of a token may always act on it.
pub proof fn lemma_owner_can_act(
    token: crate::state::TokenInfoV,
    ops: Entries<Entries<Expiration>>,
    block: BlockInfo,
)
    ensures
        spec_can_act(token.owner, token, ops, block),
{
}

/// A caller with no approval on the token and no operator grant from its
/// owner may not act on it.
pub proof fn lemma_stranger_cannot_act(
    caller: Seq<char>,
    token: crate::state::TokenInfoV,
    ops: Entries<Entries<Expiration>>,
    block: BlockInfo,
)
    requires
        caller != token.owner,
        forall|i: int|
            0 <= i < token.approvals.len() ==> (#[trigger] token.approvals[i]).spender != caller,
        operator_grant(ops, token.owner, caller) is None,
    ensures
        !spec_can_act(caller, token, ops, block),
{
}

/// An expired approval never authorizes: a caller whose every approval on
/// the token has elapsed, and whose operator grant from the owner (if any)
/// has elapsed too, may not act on it.
pub proof fn lemma_expired_grants_cannot_act(
    caller: Seq<char>,
    token: crate::state::TokenInfoV,
    ops: Entries<Entries<Expiration>>,
    block: BlockInfo,
)
    requires
        caller != token.owner,
        forall|i: int|
            0 <= i < token.approvals.len() && (#[trigger] token.approvals[i]).spender == caller
                ==> spec_is_expired(token.approvals[i].expires, block),
        match operator_grant(ops, token.owner, caller) {
            Some(e) => spec_is_expired(e, block),
            None => true,
        },
    ensures
        !spec_can_act(caller, token, ops, block),
{
}

} // verus!
