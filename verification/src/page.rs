//! Cursor pagination over the ordered stores.
//!
//! A page is the keys strictly after an exclusive cursor, in ascending
//! order, up to a clamped limit. `lemma_pagination_step` is the coverage
//! law: repeatedly feeding the last returned key back as the cursor walks
//! the full ascending sequence exactly once per entry, with no duplicates
//! or omissions, as long as the store is not mutated between pages.

use vstd::prelude::*;

use crate::order::lemma_lex_lt_asymm;
use crate::order::lemma_lex_lt_irrefl;
use crate::order::lemma_lex_lt_trans;
use crate::order::lex_lt;
use crate::order::str_lt;
use crate::strmap::Entries;

verus! {

/// Strictly ascending key sequence.
pub open spec fn sorted_keys(ks: Seq<Seq<char>>) -> bool {
    forall|i: int, j: int| 0 <= i < j < ks.len() ==> #[trigger] lex_lt(ks[i], ks[j])
}

/// The keys of an entry sequence, in storage order.
pub open spec fn keys_of<T>(s: Entries<T>) -> Seq<Seq<char>> {
    s.map_values(|e: (Seq<char>, T)| e.0)
}

/// Whether a key lies strictly after the exclusive cursor (no cursor admits
/// every key).
pub open spec fn key_after(start: Option<Seq<char>>, k: Seq<char>) -> bool {
    match start {
        None => true,
        Some(c) => lex_lt(c, k),
    }
}

/// The subsequence of keys strictly after the cursor, in order.
pub open spec fn after_keys(ks: Seq<Seq<char>>, start: Option<Seq<char>>) -> Seq<Seq<char>>
    decreases ks.len(),
{
    if ks.len() == 0 {
        Seq::empty()
    } else {
        let rest = after_keys(ks.drop_last(), start);
        if key_after(start, ks.last()) {
            rest.push(ks.last())
        } else {
            rest
        }
    }
}

/// The first `n` elements, or all of them when fewer than `n` remain.
pub open spec fn take_up_to<A>(s: Seq<A>, n: int) -> Seq<A> {
    if n <= s.len() {
        s.take(n)
    } else {
        s
    }
}

/// The page size actually used: the requested limit, defaulting to 10,
/// clamped to the closed range [1, 30] whatever was asked for.
pub open spec fn spec_clamp_limit(requested: Option<u32>) -> usize {
    let l = match requested {
        Some(v) => v,
        None => 10u32,
    };
    if l < 1 {
        1usize
    } else if l > 30 {
        30usize
    } else {
        l as usize
    }
}

/// Clamps a requested page size to the closed range [1, 30], with 10 as
/// the default.
pub fn clamp_limit(requested: Option<u32>) -> (r: usize)
    ensures
        r == spec_clamp_limit(requested),
        1 <= r <= 30,
{
    let l: u32 = match requested {
        Some(v) => v,
        None => 10,
    };
    if l < 1 {
        1
    } else if l > 30 {
        30
    } else {
        l as usize
    }
}

/// Decides whether a key lies strictly after the exclusive cursor.
pub fn key_after_exec(start: &Option<String>, k: &String) -> (r: bool)
    ensures
        r == key_after(view_opt(*start), k@),
{
    match start {
        None => true,
        Some(c) => str_lt(c.as_str(), k.as_str()),
    }
}

/// The view of an optional cursor.
pub open spec fn view_opt(o: Option<String>) -> Option<Seq<char>> {
    match o {
        Some(s) => Some(s@),
        None => None,
    }
}

/// A sorted store has sorted keys, so the coverage law below applies to
/// every store of the ledger.
pub proof fn lemma_keys_of_sorted<T>(s: Entries<T>)
    requires
        crate::strmap::sorted_al(s),
    ensures
        sorted_keys(keys_of(s)),
{
    assert forall|i: int, j: int| 0 <= i < j < keys_of(s).len() implies #[trigger] lex_lt(
        keys_of(s)[i],
        keys_of(s)[j],
    ) by {
        assert(keys_of(s)[i] == s[i].0);
        assert(keys_of(s)[j] == s[j].0);
    }
}

/// Without a cursor, every key is on offer.
pub proof fn lemma_after_keys_none(ks: Seq<Seq<char>>)
    ensures
        after_keys(ks, None) == ks,
    decreases ks.len(),
{
    if ks.len() > 0 {
        lemma_after_keys_none(ks.drop_last());
        assert(after_keys(ks.drop_last(), None).push(ks.last()) =~= ks);
    }
}

/// What comes after a cursor: a sorted subset of the keys, each lying
/// after the cursor.
pub proof fn lemma_after_keys_props(ks: Seq<Seq<char>>, start: Option<Seq<char>>)
    requires
        sorted_keys(ks),
    ensures
        sorted_keys(after_keys(ks, start)),
        forall|m: int|
            0 <= m < after_keys(ks, start).len() ==> key_after(
                start,
                #[trigger] after_keys(ks, start)[m],
            ),
        forall|m: int|
            0 <= m < after_keys(ks, start).len() ==> ks.contains(#[trigger] after_keys(ks, start)[m]),
    decreases ks.len(),
{
    if ks.len() > 0 {
        let g = ks.drop_last();
        lemma_after_keys_props(g, start);
        let rest = after_keys(g, start);
        assert forall|m: int| 0 <= m < rest.len() implies ks.contains(#[trigger] rest[m]) by {
            assert(g.contains(rest[m]));
            let j = choose|j: int| 0 <= j < g.len() && g[j] == rest[m];
            assert(ks[j] == rest[m]);
        }
        if key_after(start, ks.last()) {
            let out = rest.push(ks.last());
            assert(ks.contains(ks.last())) by {
                assert(ks[ks.len() - 1] == ks.last());
            }
            assert forall|p: int, q: int| 0 <= p < q < out.len() implies #[trigger] lex_lt(
                out[p],
                out[q],
            ) by {
                if q == out.len() - 1 {
                    assert(g.contains(out[p]));
                    let j = choose|j: int| 0 <= j < g.len() && g[j] == out[p];
                    assert(lex_lt(ks[j], ks.last()));
                }
            }
        }
    }
}

/// A cursor that every key fails leaves the page empty.
pub proof fn lemma_after_keys_empty(ks: Seq<Seq<char>>, start: Option<Seq<char>>)
    requires
        forall|j: int| 0 <= j < ks.len() ==> !key_after(start, #[trigger] ks[j]),
    ensures
        after_keys(ks, start) == Seq::<Seq<char>>::empty(),
    decreases ks.len(),
{
    if ks.len() > 0 {
        assert forall|j: int| 0 <= j < ks.drop_last().len() implies !key_after(
            start,
            #[trigger] ks.drop_last()[j],
        ) by {
            assert(ks.drop_last()[j] == ks[j]);
        }
        lemma_after_keys_empty(ks.drop_last(), start);
        assert(!key_after(start, ks[ks.len() - 1]));
    }
}

/// In a sorted sequence, the keys after the element at `n - 1` are exactly
/// the suffix from `n` on.
pub proof fn lemma_after_keys_suffix(ks: Seq<Seq<char>>, n: int)
    requires
        sorted_keys(ks),
        0 < n <= ks.len(),
    ensures
        after_keys(ks, Some(ks[n - 1])) == ks.skip(n),
    decreases ks.len(),
{
    let c = ks[n - 1];
    let g = ks.drop_last();
    if n == ks.len() {
        assert(ks.last() == c);
        lemma_lex_lt_irrefl(c);
        assert forall|j: int| 0 <= j < g.len() implies !key_after(Some(c), #[trigger] g[j]) by {
            assert(g[j] == ks[j]);
            assert(lex_lt(ks[j], c));
            lemma_lex_lt_asymm(ks[j], c);
        }
        lemma_after_keys_empty(g, Some(c));
        assert(ks.skip(n) =~= Seq::<Seq<char>>::empty());
        assert(after_keys(ks, Some(c)) =~= ks.skip(n));
    } else {
        assert(lex_lt(c, ks.last()));
        assert(g[n - 1] == c);
        assert forall|i: int, j: int| 0 <= i < j < g.len() implies #[trigger] lex_lt(
            g[i],
            g[j],
        ) by {
            assert(g[i] == ks[i]);
            assert(g[j] == ks[j]);
        }
        lemma_after_keys_suffix(g, n);
        assert(after_keys(ks, Some(c)) == g.skip(n).push(ks.last()));
        assert(g.skip(n).push(ks.last()) =~= ks.skip(n));
    }
}

/// Narrowing the cursor absorbs a wider one: filtering by a later cursor
/// directly, or first by an earlier cursor and then by the later one,
/// selects the same keys.
pub proof fn lemma_after_keys_absorb(ks: Seq<Seq<char>>, start: Option<Seq<char>>, c: Seq<char>)
    requires
        key_after(start, c),
    ensures
        after_keys(ks, Some(c)) == after_keys(after_keys(ks, start), Some(c)),
    decreases ks.len(),
{
    if ks.len() > 0 {
        let g = ks.drop_last();
        lemma_after_keys_absorb(g, start, c);
        if key_after(start, ks.last()) {
            let a = after_keys(g, start).push(ks.last());
            assert(after_keys(ks, start) == a);
            assert(a.drop_last() =~= after_keys(g, start));
            assert(a.last() == ks.last());
        } else {
            if lex_lt(c, ks.last()) {
                match start {
                    None => {},
                    Some(s0) => {
                        lemma_lex_lt_trans(s0, c, ks.last());
                    },
                }
            }
            assert(!lex_lt(c, ks.last()));
        }
    }
}

/// The pagination coverage law: when a page is non-empty, setting the
/// cursor to its last key makes the next pages continue exactly where it
/// ended — the keys after the new cursor are the keys after the old one
/// with the page cut off the front. With `lemma_after_keys_none` as the
/// base, concatenating all pages obtained this way reproduces the full
/// ascending key sequence exactly once per entry, with no duplicates or
/// omissions, as long as the keys do not change between pages.
pub proof fn lemma_pagination_step(ks: Seq<Seq<char>>, start: Option<Seq<char>>, limit: int)
    requires
        sorted_keys(ks),
        0 < limit,
        take_up_to(after_keys(ks, start), limit).len() > 0,
    ensures
        ({
            let page = take_up_to(after_keys(ks, start), limit);
            after_keys(ks, Some(page.last())) == after_keys(ks, start).skip(page.len() as int)
        }),
{
    let f = after_keys(ks, start);
    let page = take_up_to(f, limit);
    let n = page.len() as int;
    assert(page.last() == f[n - 1]);
    lemma_after_keys_props(ks, start);
    assert(key_after(start, f[n - 1]));
    lemma_after_keys_absorb(ks, start, f[n - 1]);
    lemma_after_keys_suffix(f, n);
}

} // verus!
