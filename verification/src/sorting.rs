//! A stable sort of named items by name, in the order of `str`.

use vstd::prelude::*;
use crate::text::{lex_le, lemma_lex_total, lemma_lex_transitive, str_le};

verus! {

broadcast use vstd::seq_lib::group_to_multiset_ensures;

/// An item that goes by a name.
pub trait Named {
    /// The item's name.
    spec fn key(&self) -> Seq<char>;

    /// The item's name.
    fn name_str(&self) -> (r: &str)
        ensures
            r@ == self.key(),
    ;
}

/// `s` with `x` placed after the last item whose key is at most `x`'s, from
/// the back: for a sorted `s`, after every item whose key is at most `x`'s.
pub open spec fn insert_by_key<T>(s: Seq<T>, x: T, key: spec_fn(T) -> Seq<char>) -> Seq<T>
    decreases s.len(),
{
    if s.len() == 0 {
        seq![x]
    } else if lex_le(key(s.last()), key(x)) {
        s.push(x)
    } else {
        insert_by_key(s.drop_last(), x, key).push(s.last())
    }
}

/// `s` sorted by key by inserting its items one after the other: a stable
/// sort, so items with equal keys keep their order.
pub open spec fn sort_by_key<T>(s: Seq<T>, key: spec_fn(T) -> Seq<char>) -> Seq<T>
    decreases s.len(),
{
    if s.len() == 0 {
        seq![]
    } else {
        insert_by_key(sort_by_key(s.drop_last(), key), s.last(), key)
    }
}

/// The keys of `s` never decrease.
pub open spec fn sorted_by_key<T>(s: Seq<T>, key: spec_fn(T) -> Seq<char>) -> bool {
    forall|i: int, j: int| 0 <= i < j < s.len() ==> lex_le(#[trigger] key(s[i]), #[trigger] key(s[j]))
}

proof fn lemma_insert_at<T>(s: Seq<T>, x: T, key: spec_fn(T) -> Seq<char>, j: int)
    requires
        0 <= j <= s.len(),
        forall|k: int| j <= k < s.len() ==> !lex_le(#[trigger] key(s[k]), key(x)),
        j == 0 || lex_le(key(s[j - 1]), key(x)),
    ensures
        insert_by_key(s, x, key) == s.take(j).push(x) + s.skip(j),
    decreases s.len(),
{
    if j == s.len() {
        if s.len() == 0 {
            assert(s.take(j).push(x) + s.skip(j) =~= seq![x]);
        } else {
            assert(s.take(j).push(x) + s.skip(j) =~= s.push(x));
        }
    } else {
        assert(!lex_le(key(s[s.len() - 1]), key(x)));
        let d = s.drop_last();
        assert forall|k: int| j <= k < d.len() implies !lex_le(#[trigger] key(d[k]), key(x)) by {
            assert(d[k] == s[k]);
        }
        if j > 0 {
            assert(d[j - 1] == s[j - 1]);
        }
        lemma_insert_at(d, x, key, j);
        assert(d.take(j).push(x) + d.skip(j) + seq![s.last()] =~= s.take(j).push(x) + s.skip(j));
        assert((d.take(j).push(x) + d.skip(j)).push(s.last()) =~= d.take(j).push(x) + d.skip(j)
            + seq![s.last()]);
    }
}

proof fn lemma_insert_bounded<T>(s: Seq<T>, x: T, key: spec_fn(T) -> Seq<char>, b: Seq<char>)
    requires
        forall|i: int| 0 <= i < s.len() ==> lex_le(#[trigger] key(s[i]), b),
        lex_le(key(x), b),
    ensures
        forall|i: int|
            0 <= i < insert_by_key(s, x, key).len() ==> lex_le(#[trigger] key(insert_by_key(s, x, key)[i]), b),
    decreases s.len(),
{
    if s.len() > 0 && !lex_le(key(s.last()), key(x)) {
        let d = s.drop_last();
        assert forall|i: int| 0 <= i < d.len() implies lex_le(#[trigger] key(d[i]), b) by {
            assert(d[i] == s[i]);
        }
        lemma_insert_bounded(d, x, key, b);
        let r = insert_by_key(d, x, key).push(s.last());
        assert forall|i: int| 0 <= i < r.len() implies lex_le(#[trigger] key(r[i]), b) by {
            if i < r.len() - 1 {
                assert(r[i] == insert_by_key(d, x, key)[i]);
            } else {
                assert(r[i] == s[s.len() - 1]);
            }
        }
    } else if s.len() > 0 {
        let r = s.push(x);
        assert forall|i: int| 0 <= i < r.len() implies lex_le(#[trigger] key(r[i]), b) by {
            if i < s.len() {
                assert(r[i] == s[i]);
            }
        }
    }
}

proof fn lemma_insert_sorted<T>(s: Seq<T>, x: T, key: spec_fn(T) -> Seq<char>)
    requires
        sorted_by_key(s, key),
    ensures
        sorted_by_key(insert_by_key(s, x, key), key),
    decreases s.len(),
{
    if s.len() == 0 {
    } else if lex_le(key(s.last()), key(x)) {
        let r = s.push(x);
        assert forall|i: int, j: int| 0 <= i < j < r.len() implies lex_le(#[trigger] key(r[i]), #[trigger] key(r[j])) by {
            if j == s.len() {
                if i < s.len() - 1 {
                    assert(lex_le(key(s[i]), key(s[s.len() - 1])));
                    lemma_lex_transitive(key(s[i]), key(s[s.len() - 1]), key(x));
                }
            } else {
                assert(r[i] == s[i] && r[j] == s[j]);
            }
        }
    } else {
        let d = s.drop_last();
        let m = s.last();
        assert forall|i: int, j: int| 0 <= i < j < d.len() implies lex_le(#[trigger] key(d[i]), #[trigger] key(d[j])) by {
            assert(d[i] == s[i] && d[j] == s[j]);
        }
        lemma_insert_sorted(d, x, key);
        lemma_lex_total(key(m), key(x));
        assert forall|i: int| 0 <= i < d.len() implies lex_le(#[trigger] key(d[i]), key(m)) by {
            assert(d[i] == s[i]);
            assert(s[s.len() - 1] == m);
        }
        lemma_insert_bounded(d, x, key, key(m));
        let p = insert_by_key(d, x, key);
        let r = p.push(m);
        assert forall|i: int, j: int| 0 <= i < j < r.len() implies lex_le(#[trigger] key(r[i]), #[trigger] key(r[j])) by {
            assert(r[i] == p[i]);
            if j < p.len() {
                assert(r[j] == p[j]);
            }
        }
    }
}

proof fn lemma_insert_multiset<T>(s: Seq<T>, x: T, key: spec_fn(T) -> Seq<char>)
    ensures
        insert_by_key(s, x, key).to_multiset() =~= s.to_multiset().insert(x),
    decreases s.len(),
{
    if s.len() == 0 {
        assert(seq![x] =~= s.push(x));
    } else if lex_le(key(s.last()), key(x)) {
    } else {
        let d = s.drop_last();
        lemma_insert_multiset(d, x, key);
        assert(s =~= d.push(s.last()));
    }
}

proof fn lemma_insert_map<T, U>(
    s: Seq<T>,
    x: T,
    key: spec_fn(T) -> Seq<char>,
    f: spec_fn(T) -> U,
    key_u: spec_fn(U) -> Seq<char>,
)
    requires
        forall|t: T| #[trigger] key_u(f(t)) == key(t),
    ensures
        insert_by_key(s.map_values(f), f(x), key_u) == insert_by_key(s, x, key).map_values(f),
    decreases s.len(),
{
    let sm = s.map_values(f);
    if s.len() == 0 {
        assert(seq![f(x)] =~= seq![x].map_values(f));
    } else {
        assert(sm.last() == f(s.last()));
        assert(key_u(sm.last()) == key(s.last()));
        assert(key_u(f(x)) == key(x));
        if lex_le(key(s.last()), key(x)) {
            assert(sm.push(f(x)) =~= s.push(x).map_values(f));
        } else {
            let d = s.drop_last();
            assert(sm.drop_last() =~= d.map_values(f));
            lemma_insert_map(d, x, key, f, key_u);
            assert(insert_by_key(d, x, key).map_values(f).push(f(s.last())) =~= insert_by_key(d, x, key).push(
                s.last(),
            ).map_values(f));
        }
    }
}

/// Sorting by key gives keys that never decrease.
pub proof fn lemma_sort_sorted<T>(s: Seq<T>, key: spec_fn(T) -> Seq<char>)
    ensures
        sorted_by_key(sort_by_key(s, key), key),
    decreases s.len(),
{
    if s.len() > 0 {
        lemma_sort_sorted(s.drop_last(), key);
        lemma_insert_sorted(sort_by_key(s.drop_last(), key), s.last(), key);
    }
}

/// Sorting by key keeps every item, as often as it occurs.
pub proof fn lemma_sort_permutes<T>(s: Seq<T>, key: spec_fn(T) -> Seq<char>)
    ensures
        sort_by_key(s, key).to_multiset() =~= s.to_multiset(),
    decreases s.len(),
{
    if s.len() > 0 {
        lemma_sort_permutes(s.drop_last(), key);
        lemma_insert_multiset(sort_by_key(s.drop_last(), key), s.last(), key);
        assert(s =~= s.drop_last().push(s.last()));
    }
}

/// Sorting commutes with a map that keeps keys.
pub proof fn lemma_sort_map<T, U>(
    s: Seq<T>,
    key: spec_fn(T) -> Seq<char>,
    f: spec_fn(T) -> U,
    key_u: spec_fn(U) -> Seq<char>,
)
    requires
        forall|t: T| #[trigger] key_u(f(t)) == key(t),
    ensures
        sort_by_key(s.map_values(f), key_u) == sort_by_key(s, key).map_values(f),
    decreases s.len(),
{
    if s.len() > 0 {
        let d = s.drop_last();
        assert(s.map_values(f).drop_last() =~= d.map_values(f));
        assert(s.map_values(f).last() == f(s.last()));
        lemma_sort_map(d, key, f, key_u);
        lemma_insert_map(sort_by_key(d, key), s.last(), key, f, key_u);
    } else {
        assert(s.map_values(f) =~= Seq::<U>::empty());
    }
}

/// `items` sorted by name; items with equal names keep their order.
pub fn sort_by_name<T: Named>(items: Vec<T>) -> (r: Vec<T>)
    ensures
        r@ == sort_by_key(items@, |t: T| t.key()),
{
    let ghost key = |t: T| t.key();
    let ghost all = items@;
    let mut rest = items;
    let mut out: Vec<T> = Vec::new();
    let n = rest.len();
    let mut k: usize = 0;
    while rest.len() > 0
        invariant
            all.len() == n,
            k + rest.len() == all.len(),
            rest@ == all.skip(k as int),
            out@ == sort_by_key(all.take(k as int), key),
            key == (|t: T| t.key()),
        decreases rest.len(),
    {
        let x = rest.remove(0);
        proof {
            assert(x == all[k as int]);
            assert(all.take(k + 1).drop_last() =~= all.take(k as int));
            assert(rest@ =~= all.skip(k + 1));
        }
        let mut j = out.len();
        while j > 0 && !str_le(out[j - 1].name_str(), x.name_str())
            invariant
                j <= out.len(),
                forall|m: int| j <= m < out.len() ==> !lex_le(#[trigger] key(out@[m]), key(x)),
                key == (|t: T| t.key()),
            decreases j,
        {
            j = j - 1;
        }
        proof {
            lemma_insert_at(out@, x, key, j as int);
        }
        let ghost before = out@;
        out.insert(j, x);
        assert(out@ =~= before.take(j as int).push(x) + before.skip(j as int));
        k = k + 1;
    }
    assert(all.take(k as int) =~= all);
    out
}

} // verus!
