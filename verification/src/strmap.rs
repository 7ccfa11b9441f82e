//! An ordered map from string identifiers to values, the store shape behind
//! every ledger: tokens, operator grants, books and borrower records.
//!
//! The map is an association list kept strictly sorted by `lex_lt` on the
//! key, so keys are unique and the enumeration layer can hand out pages in
//! ascending key order by walking the entries. `assoc_get` is the lookup
//! semantics every operation is specified against.

use vstd::prelude::*;

use crate::order::lemma_lex_lt_connex;
use crate::order::lemma_lex_lt_neq;
use crate::order::lemma_lex_lt_trans;
use crate::order::lex_lt;
use crate::order::str_lt;

verus! {

/// The view of an ordered map: its entries in storage order.
pub type Entries<T> = Seq<(Seq<char>, T)>;

/// Entries are strictly ascending in the key, so every key occurs at most
/// once.
pub open spec fn sorted_al<T>(s: Entries<T>) -> bool {
    forall|i: int, j: int| 0 <= i < j < s.len() ==> #[trigger] lex_lt(s[i].0, s[j].0)
}

/// Lookup in an association list: the value of the first entry whose key
/// matches, if any.
pub open spec fn assoc_get<T>(s: Entries<T>, k: Seq<char>) -> Option<T>
    decreases s.len(),
{
    if s.len() == 0 {
        None
    } else if s[0].0 == k {
        Some(s[0].1)
    } else {
        assoc_get(s.drop_first(), k)
    }
}

/// A key matches no entry exactly when lookup fails.
pub proof fn lemma_assoc_none_iff<T>(s: Entries<T>, k: Seq<char>)
    ensures
        (assoc_get(s, k) is None) <==> (forall|i: int| 0 <= i < s.len() ==> s[i].0 != k),
    decreases s.len(),
{
    if s.len() > 0 {
        lemma_assoc_none_iff(s.drop_first(), k);
        assert forall|i: int| 0 <= i < s.drop_first().len() implies s.drop_first()[i] == s[i + 1] by {}
        if s[0].0 != k && (forall|i: int| 0 <= i < s.drop_first().len() ==> s.drop_first()[i].0 != k) {
            assert forall|i: int| 0 <= i < s.len() implies s[i].0 != k by {
                if i > 0 {
                    assert(s.drop_first()[i - 1].0 != k);
                }
            }
        }
    }
}

/// Lookup returns the entry at the first matching index.
pub proof fn lemma_assoc_first<T>(s: Entries<T>, k: Seq<char>, i: int)
    requires
        0 <= i < s.len(),
        s[i].0 == k,
        forall|j: int| 0 <= j < i ==> s[j].0 != k,
    ensures
        assoc_get(s, k) == Some(s[i].1),
    decreases i,
{
    if i > 0 {
        assert forall|j: int| 0 <= j < i - 1 implies s.drop_first()[j].0 != k by {
            assert(s.drop_first()[j] == s[j + 1]);
        }
        assert(s.drop_first()[i - 1] == s[i]);
        lemma_assoc_first(s.drop_first(), k, i - 1);
    }
}

/// In a sorted list, lookup of the key at any index yields that index's
/// value.
pub proof fn lemma_assoc_sorted_at<T>(s: Entries<T>, i: int)
    requires
        sorted_al(s),
        0 <= i < s.len(),
    ensures
        assoc_get(s, s[i].0) == Some(s[i].1),
{
    assert forall|j: int| 0 <= j < i implies s[j].0 != s[i].0 by {
        lemma_lex_lt_neq(s[j].0, s[i].0);
    }
    lemma_assoc_first(s, s[i].0, i);
}

/// A successful lookup names an entry: some index holds the key and the
/// returned value.
pub proof fn lemma_assoc_some_index<T>(s: Entries<T>, k: Seq<char>)
    ensures
        match assoc_get(s, k) {
            Some(v) => exists|j: int| 0 <= j < s.len() && (#[trigger] s[j]).0 == k && s[j].1 == v,
            None => true,
        },
    decreases s.len(),
{
    if s.len() > 0 && s[0].0 != k {
        lemma_assoc_some_index(s.drop_first(), k);
        if assoc_get(s, k) is Some {
            let j = choose|j: int|
                0 <= j < s.drop_first().len() && (#[trigger] s.drop_first()[j]).0 == k
                    && s.drop_first()[j].1 == assoc_get(s, k)->Some_0;
            assert(s[j + 1] == s.drop_first()[j]);
        }
    }
}

/// A property that holds of every stored value still holds after one key is
/// written or cleared, provided it holds of the newly stored value.
pub proof fn lemma_values_prop_preserved<T>(
    pre: Entries<T>,
    post: Entries<T>,
    k: Seq<char>,
    prop: spec_fn(T) -> bool,
)
    requires
        sorted_al(pre),
        sorted_al(post),
        forall|i: int| 0 <= i < pre.len() ==> prop((#[trigger] pre[i]).1),
        match assoc_get(post, k) {
            Some(v) => prop(v),
            None => true,
        },
        forall|q: Seq<char>| q != k ==> assoc_get(post, q) == assoc_get(pre, q),
    ensures
        forall|i: int| 0 <= i < post.len() ==> prop((#[trigger] post[i]).1),
{
    assert forall|i: int| 0 <= i < post.len() implies prop((#[trigger] post[i]).1) by {
        lemma_assoc_sorted_at(post, i);
        if post[i].0 != k {
            assert(assoc_get(pre, post[i].0) == Some(post[i].1));
            lemma_assoc_some_index(pre, post[i].0);
        }
    }
}

/// Strict order between every adjacent pair extends to every pair.
proof fn lemma_adjacent_sorted<T>(s: Entries<T>, i: int, j: int)
    requires
        forall|k: int| 0 <= k < s.len() - 1 ==> lex_lt((#[trigger] s[k]).0, s[k + 1].0),
        0 <= i < j < s.len(),
    ensures
        lex_lt(s[i].0, s[j].0),
    decreases j - i,
{
    if j == i + 1 {
        assert(lex_lt(s[i].0, s[i + 1].0));
    } else {
        lemma_adjacent_sorted(s, i, j - 1);
        assert(lex_lt(s[j - 1].0, s[j].0));
        lemma_lex_lt_trans(s[i].0, s[j - 1].0, s[j].0);
    }
}

/// An ordered map from string keys to values.
pub struct StrMap<V> {
    pub entries: Vec<(String, V)>,
}

impl<V: View> View for StrMap<V> {
    type V = Entries<<V as View>::V>;

    open spec fn view(&self) -> Entries<<V as View>::V> {
        self.entries@.map_values(|e: (String, V)| (e.0@, e.1@))
    }
}

impl<V: View> StrMap<V> {
    /// The map invariant: entries strictly ascending in the key.
    pub open spec fn wf(&self) -> bool {
        sorted_al(self@)
    }

    /// The value stored under a key, if any.
    pub open spec fn spec_get(&self, k: Seq<char>) -> Option<<V as View>::V> {
        assoc_get(self@, k)
    }

    /// Whether a key is present.
    pub open spec fn spec_contains(&self, k: Seq<char>) -> bool {
        self.spec_get(k) is Some
    }

    /// An empty map.
    pub fn new() -> (r: Self)
        ensures
            r@.len() == 0,
            r.wf(),
    {
        let r = StrMap { entries: Vec::new() };
        proof {
            assert(r@.len() == 0);
        }
        r
    }

    /// The number of entries.
    pub fn len(&self) -> (n: usize)
        ensures
            n == self@.len(),
    {
        self.entries.len()
    }

    /// The entry at an index, in ascending key order.
    pub fn entry_at(&self, i: usize) -> (r: (&String, &V))
        requires
            i < self@.len(),
        ensures
            r.0@ == self@[i as int].0,
            r.1@ == self@[i as int].1,
    {
        let e = &self.entries[i];
        (&e.0, &e.1)
    }

    /// Looks a key up.
    pub fn get(&self, key: &String) -> (r: Option<&V>)
        ensures
            match r {
                Some(v) => assoc_get(self@, key@) == Some(v@),
                None => assoc_get(self@, key@) is None,
            },
    {
        let n = self.entries.len();
        let mut i: usize = 0;
        while i < n
            invariant
                i <= n,
                n == self@.len(),
                forall|j: int| 0 <= j < i ==> self@[j].0 != key@,
            decreases n - i,
        {
            if self.entries[i].0 == *key {
                proof {
                    lemma_assoc_first(self@, key@, i as int);
                }
                return Some(&self.entries[i].1);
            }
            i = i + 1;
        }
        proof {
            lemma_assoc_none_iff(self@, key@);
        }
        None
    }

    /// Whether a key is present.
    pub fn contains_key(&self, key: &String) -> (r: bool)
        ensures
            r == (assoc_get(self@, key@) is Some),
    {
        match self.get(key) {
            Some(_) => true,
            None => false,
        }
    }

    /// Decides the map invariant: strictly ascending keys. Checking the
    /// adjacent pairs decides all pairs, since the order is transitive.
    pub fn check_wf(&self) -> (r: bool)
        ensures
            r == self.wf(),
    {
        let n = self.entries.len();
        if n <= 1 {
            return true;
        }
        let mut i: usize = 1;
        while i < n
            invariant
                1 <= i <= n,
                n == self@.len(),
                forall|k: int| 0 <= k < i - 1 ==> lex_lt((#[trigger] self@[k]).0, self@[k + 1].0),
            decreases n - i,
        {
            if !str_lt(self.entries[i - 1].0.as_str(), self.entries[i].0.as_str()) {
                proof {
                    assert(!sorted_al(self@)) by {
                        if sorted_al(self@) {
                            assert(lex_lt(self@[i - 1].0, self@[i as int].0));
                        }
                    }
                }
                return false;
            }
            i = i + 1;
        }
        proof {
            assert forall|p: int, q: int| 0 <= p < q < self@.len() implies #[trigger] lex_lt(
                self@[p].0,
                self@[q].0,
            ) by {
                lemma_adjacent_sorted(self@, p, q);
            }
        }
        true
    }

    /// The index of the first entry whose key is not below the given key;
    /// the length if every key is below it.
    fn lower_bound(&self, key: &String) -> (i: usize)
        requires
            self.wf(),
        ensures
            i <= self@.len(),
            forall|j: int| 0 <= j < i ==> lex_lt(self@[j].0, key@),
            i < self@.len() ==> !lex_lt(self@[i as int].0, key@),
    {
        let n = self.entries.len();
        let mut i: usize = 0;
        while i < n
            invariant
                i <= n,
                n == self@.len(),
                forall|j: int| 0 <= j < i ==> lex_lt(self@[j].0, key@),
            decreases n - i,
        {
            if !str_lt(self.entries[i].0.as_str(), key.as_str()) {
                return i;
            }
            i = i + 1;
        }
        i
    }

    /// Inserts a value under a key; an existing entry for the key is
    /// overwritten in place, never duplicated.
    pub fn insert(&mut self, key: String, value: V)
        requires
            old(self).wf(),
        ensures
            final(self).wf(),
            assoc_get(final(self)@, key@) == Some(value@),
            forall|q: Seq<char>|
                q != key@ ==> #[trigger] assoc_get(final(self)@, q) == assoc_get(old(self)@, q),
            assoc_get(old(self)@, key@) is Some ==> final(self)@.len() == old(self)@.len(),
            assoc_get(old(self)@, key@) is None ==> final(self)@.len() == old(self)@.len() + 1,
    {
        let ghost os = self@;
        let i = self.lower_bound(&key);
        let n = self.entries.len();
        if i < n && self.entries[i].0 == key {
            let _ = self.entries.remove(i);
            self.entries.insert(i, (key, value));
            proof {
                let ns = self@;
                assert(ns =~= os.update(i as int, (key@, value@)));
                assert forall|p: int, q: int| 0 <= p < q < ns.len() implies #[trigger] lex_lt(
                    ns[p].0,
                    ns[q].0,
                ) by {
                    assert(ns[p].0 == os[p].0);
                    assert(ns[q].0 == os[q].0);
                }
                lemma_assoc_sorted_at(ns, i as int);
                lemma_assoc_sorted_at(os, i as int);
                assert forall|q: Seq<char>| q != key@ implies assoc_get(ns, q) == assoc_get(
                    os,
                    q,
                ) by {
                    if exists|j: int| 0 <= j < os.len() && os[j].0 == q {
                        let j = choose|j: int| 0 <= j < os.len() && os[j].0 == q;
                        lemma_assoc_sorted_at(os, j);
                        assert(ns[j] == os[j]);
                        lemma_assoc_sorted_at(ns, j);
                    } else {
                        lemma_assoc_none_iff(os, q);
                        lemma_assoc_none_iff(ns, q);
                        assert forall|m: int| 0 <= m < ns.len() implies ns[m].0 != q by {
                            assert(ns[m].0 == os[m].0);
                        }
                    }
                }
            }
        } else {
            self.entries.insert(i, (key, value));
            proof {
                let ns = self@;
                assert(ns =~= os.insert(i as int, (key@, value@)));
                if i < n {
                    assert(os[i as int].0 != key@);
                    if !lex_lt(key@, os[i as int].0) {
                        lemma_lex_lt_connex(key@, os[i as int].0);
                    }
                }
                assert forall|j: int| i <= j < os.len() implies lex_lt(key@, os[j].0) by {
                    if j > i {
                        lemma_lex_lt_trans(key@, os[i as int].0, os[j].0);
                    }
                }
                assert forall|p: int, q: int| 0 <= p < q < ns.len() implies #[trigger] lex_lt(
                    ns[p].0,
                    ns[q].0,
                ) by {
                    let pp = if p < i { p } else { p - 1 };
                    let qq = if q < i { q } else { q - 1 };
                    if p == i {
                        assert(ns[p].0 == key@);
                        assert(ns[q].0 == os[qq].0);
                    } else if q == i {
                        assert(ns[p].0 == os[pp].0);
                        assert(ns[q].0 == key@);
                    } else {
                        assert(ns[p].0 == os[pp].0);
                        assert(ns[q].0 == os[qq].0);
                        if pp < qq {
                        } else {
                            assert(pp == qq);
                            assert(p < i && q > i);
                            lemma_lex_lt_trans(os[pp].0, key@, os[qq].0);
                        }
                    }
                }
                lemma_assoc_sorted_at(ns, i as int);
                assert forall|j: int| 0 <= j < os.len() implies os[j].0 != key@ by {
                    if j < i {
                        lemma_lex_lt_neq(os[j].0, key@);
                    } else {
                        lemma_lex_lt_neq(key@, os[j].0);
                    }
                }
                lemma_assoc_none_iff(os, key@);
                assert forall|q: Seq<char>| q != key@ implies assoc_get(ns, q) == assoc_get(
                    os,
                    q,
                ) by {
                    if exists|j: int| 0 <= j < os.len() && os[j].0 == q {
                        let j = choose|j: int| 0 <= j < os.len() && os[j].0 == q;
                        lemma_assoc_sorted_at(os, j);
                        let jj = if j < i { j } else { j + 1 };
                        assert(ns[jj] == os[j]);
                        lemma_assoc_sorted_at(ns, jj);
                    } else {
                        lemma_assoc_none_iff(os, q);
                        lemma_assoc_none_iff(ns, q);
                        assert forall|m: int| 0 <= m < ns.len() implies ns[m].0 != q by {
                            if m != i {
                                let mm = if m < i { m } else { m - 1 };
                                assert(ns[m] == os[mm]);
                            }
                        }
                    }
                }
            }
        }
    }

    /// Removes the entry under a key, handing its value back; absent keys
    /// are a silent no-op.
    pub fn remove(&mut self, key: &String) -> (r: Option<V>)
        requires
            old(self).wf(),
        ensures
            final(self).wf(),
            assoc_get(final(self)@, key@) is None,
            forall|q: Seq<char>|
                q != key@ ==> #[trigger] assoc_get(final(self)@, q) == assoc_get(old(self)@, q),
            match r {
                Some(v) => assoc_get(old(self)@, key@) == Some(v@) && final(self)@.len() == old(
                    self,
                )@.len() - 1,
                None => assoc_get(old(self)@, key@) is None && final(self)@ == old(self)@,
            },
    {
        let ghost os = self@;
        let i = self.lower_bound(key);
        let n = self.entries.len();
        if i < n && self.entries[i].0 == *key {
            let e = self.entries.remove(i);
            proof {
                let ns = self@;
                assert(ns =~= os.remove(i as int));
                lemma_assoc_sorted_at(os, i as int);
                assert forall|p: int, q: int| 0 <= p < q < ns.len() implies #[trigger] lex_lt(
                    ns[p].0,
                    ns[q].0,
                ) by {
                    let pp = if p < i { p } else { p + 1 };
                    let qq = if q < i { q } else { q + 1 };
                    assert(ns[p] == os[pp]);
                    assert(ns[q] == os[qq]);
                }
                assert forall|m: int| 0 <= m < ns.len() implies ns[m].0 != key@ by {
                    let mm = if m < i { m } else { m + 1 };
                    assert(ns[m] == os[mm]);
                    if mm < i {
                        lemma_lex_lt_neq(os[mm].0, os[i as int].0);
                    } else {
                        lemma_lex_lt_neq(os[i as int].0, os[mm].0);
                    }
                }
                lemma_assoc_none_iff(ns, key@);
                assert forall|q: Seq<char>| q != key@ implies assoc_get(ns, q) == assoc_get(
                    os,
                    q,
                ) by {
                    if exists|j: int| 0 <= j < os.len() && os[j].0 == q {
                        let j = choose|j: int| 0 <= j < os.len() && os[j].0 == q;
                        lemma_assoc_sorted_at(os, j);
                        let jj = if j < i { j } else { j - 1 };
                        assert(ns[jj] == os[j]);
                        lemma_assoc_sorted_at(ns, jj);
                    } else {
                        lemma_assoc_none_iff(os, q);
                        lemma_assoc_none_iff(ns, q);
                        assert forall|m: int| 0 <= m < ns.len() implies ns[m].0 != q by {
                            let mm = if m < i { m } else { m + 1 };
                            assert(ns[m] == os[mm]);
                        }
                    }
                }
            }
            Some(e.1)
        } else {
            proof {
                assert forall|j: int| 0 <= j < os.len() implies os[j].0 != key@ by {
                    if j < i {
                        lemma_lex_lt_neq(os[j].0, key@);
                    } else if i < os.len() {
                        assert(os[i as int].0 != key@);
                        if !lex_lt(key@, os[i as int].0) {
                            lemma_lex_lt_connex(key@, os[i as int].0);
                        }
                        if j > i {
                            lemma_lex_lt_trans(key@, os[i as int].0, os[j].0);
                        }
                        lemma_lex_lt_neq(key@, os[j].0);
                    }
                }
                lemma_assoc_none_iff(os, key@);
            }
            None
        }
    }

}

} // verus!
