//! Stable ordering by integer keys: a sort stated as insertion into a
//! sorted sequence, and proved to sort.
use vstd::prelude::*;

verus! {

/// A sort key: two integer fields compared in turn, then an index that
/// makes keys distinct.
pub type SortKey = (i64, i64, usize);

pub open spec fn key_lt(a: SortKey, b: SortKey) -> bool {
    a.0 < b.0 || (a.0 == b.0 && (a.1 < b.1 || (a.1 == b.1 && a.2 < b.2)))
}

fn key_lt_exec(a: SortKey, b: SortKey) -> (r: bool)
    ensures
        r == key_lt(a, b),
{
    a.0 < b.0 || (a.0 == b.0 && (a.1 < b.1 || (a.1 == b.1 && a.2 < b.2)))
}

/// The place where `x` goes in `s`: after every key it is not below.
pub open spec fn first_after(s: Seq<SortKey>, x: SortKey) -> nat
    decreases s.len(),
{
    if s.len() == 0 {
        0
    } else if key_lt(x, s[0]) {
        0
    } else {
        1 + first_after(s.drop_first(), x)
    }
}

/// `s` with `x` inserted after the keys it is not below.
pub open spec fn insert_key(s: Seq<SortKey>, x: SortKey) -> Seq<SortKey> {
    s.insert(first_after(s, x) as int, x)
}

/// The keys of `s` in ascending order, inserted one at a time.
pub open spec fn sort_keys(s: Seq<SortKey>) -> Seq<SortKey>
    decreases s.len(),
{
    if s.len() == 0 {
        s
    } else {
        insert_key(sort_keys(s.drop_last()), s.last())
    }
}

pub open spec fn keys_sorted(s: Seq<SortKey>) -> bool {
    forall|i: int, j: int| 0 <= i < j < s.len() ==> !key_lt(#[trigger] s[j], #[trigger] s[i])
}

proof fn lemma_first_after(s: Seq<SortKey>, x: SortKey)
    ensures
        first_after(s, x) <= s.len(),
        forall|q: int| 0 <= q < first_after(s, x) ==> !key_lt(x, #[trigger] s[q]),
        first_after(s, x) < s.len() ==> key_lt(x, s[first_after(s, x) as int]),
    decreases s.len(),
{
    if s.len() > 0 && !key_lt(x, s[0]) {
        lemma_first_after(s.drop_first(), x);
        assert forall|q: int| 0 <= q < first_after(s, x) implies !key_lt(x, #[trigger] s[q]) by {
            if q > 0 {
                assert(s[q] == s.drop_first()[q - 1]);
            }
        }
        if first_after(s, x) < s.len() {
            assert(s[first_after(s, x) as int] == s.drop_first()[first_after(s, x) - 1]);
        }
    }
}

proof fn lemma_first_after_is(s: Seq<SortKey>, x: SortKey, p: int)
    requires
        0 <= p <= s.len(),
        forall|q: int| 0 <= q < p ==> !key_lt(x, #[trigger] s[q]),
        p < s.len() ==> key_lt(x, s[p]),
    ensures
        first_after(s, x) == p,
    decreases s.len(),
{
    if s.len() > 0 && p > 0 {
        assert(!key_lt(x, s[0]));
        assert forall|q: int| 0 <= q < p - 1 implies !key_lt(x, #[trigger] s.drop_first()[q]) by {
            assert(s.drop_first()[q] == s[q + 1]);
        }
        if p - 1 < s.drop_first().len() {
            assert(s.drop_first()[p - 1] == s[p]);
        }
        lemma_first_after_is(s.drop_first(), x, p - 1);
    }
}

/// Inserting into sorted keys keeps them sorted.
proof fn lemma_insert_sorted(s: Seq<SortKey>, x: SortKey)
    requires
        keys_sorted(s),
    ensures
        keys_sorted(insert_key(s, x)),
        insert_key(s, x).len() == s.len() + 1,
{
    lemma_first_after(s, x);
    let p = first_after(s, x) as int;
    let r = insert_key(s, x);
    assert forall|i: int, j: int| 0 <= i < j < r.len() implies !key_lt(#[trigger] r[j], #[trigger] r[i]) by {
        if j < p {
            assert(r[i] == s[i] && r[j] == s[j]);
        } else if j == p {
            assert(r[j] == x && r[i] == s[i]);
        } else if i < p {
            assert(r[i] == s[i] && r[j] == s[j - 1]);
            assert(!key_lt(x, s[i]));
            assert(key_lt(x, s[p]));
            if j - 1 > p {
                assert(!key_lt(s[j - 1], s[p]));
            }
        } else if i == p {
            assert(r[i] == x && r[j] == s[j - 1]);
            assert(key_lt(x, s[p]));
            if j - 1 > p {
                assert(!key_lt(s[j - 1], s[p]));
            }
        } else {
            assert(r[i] == s[i - 1] && r[j] == s[j - 1]);
        }
    }
}

/// The sort yields ascending keys, one per key given.
pub proof fn lemma_sort_keys_sorted(s: Seq<SortKey>)
    ensures
        keys_sorted(sort_keys(s)),
        sort_keys(s).len() == s.len(),
    decreases s.len(),
{
    if s.len() > 0 {
        lemma_sort_keys_sorted(s.drop_last());
        lemma_insert_sorted(sort_keys(s.drop_last()), s.last());
    }
}

/// Every key of the sorted sequence is one of the keys given.
pub proof fn lemma_sort_keys_from(s: Seq<SortKey>)
    ensures
        forall|t: int| 0 <= t < sort_keys(s).len() ==> exists|q: int| 0 <= q < s.len() && #[trigger] sort_keys(s)[t] == s[q],
    decreases s.len(),
{
    if s.len() > 0 {
        let d = s.drop_last();
        lemma_sort_keys_from(d);
        lemma_sort_keys_sorted(d);
        let x = s.last();
        lemma_first_after(sort_keys(d), x);
        let p = first_after(sort_keys(d), x) as int;
        assert forall|t: int| 0 <= t < sort_keys(s).len() implies exists|q: int| 0 <= q < s.len() && #[trigger] sort_keys(s)[t] == s[q] by {
            let r = sort_keys(s);
            if t < p {
                assert(r[t] == sort_keys(d)[t]);
                let q = choose|q: int| 0 <= q < d.len() && sort_keys(d)[t] == d[q];
                assert(d[q] == s[q]);
            } else if t == p {
                assert(r[t] == s[s.len() - 1]);
            } else {
                assert(r[t] == sort_keys(d)[t - 1]);
                let q = choose|q: int| 0 <= q < d.len() && sort_keys(d)[t - 1] == d[q];
                assert(d[q] == s[q]);
            }
        }
    }
}

/// Every key given is in the sorted sequence.
pub proof fn lemma_sort_keys_covers(s: Seq<SortKey>)
    ensures
        forall|q: int| 0 <= q < s.len() ==> sort_keys(s).contains(#[trigger] s[q]),
    decreases s.len(),
{
    if s.len() > 0 {
        let d = s.drop_last();
        lemma_sort_keys_covers(d);
        let x = s.last();
        lemma_first_after(sort_keys(d), x);
        let p = first_after(sort_keys(d), x) as int;
        let r = sort_keys(s);
        assert forall|q: int| 0 <= q < s.len() implies r.contains(#[trigger] s[q]) by {
            if q < s.len() - 1 {
                assert(s[q] == d[q]);
                assert(sort_keys(d).contains(d[q]));
                let t = choose|t: int| 0 <= t < sort_keys(d).len() && sort_keys(d)[t] == d[q];
                if t < p {
                    assert(r[t] == d[q]);
                } else {
                    assert(r[t + 1] == d[q]);
                }
            } else {
                assert(r[p] == x);
            }
        }
    }
}

/// Distinct keys stay distinct when sorted.
pub proof fn lemma_sort_keys_distinct(s: Seq<SortKey>)
    requires
        forall|a: int, b: int| 0 <= a < b < s.len() ==> s[a] != s[b],
    ensures
        forall|a: int, b: int| 0 <= a < b < sort_keys(s).len() ==> sort_keys(s)[a] != sort_keys(s)[b],
    decreases s.len(),
{
    if s.len() > 0 {
        let d = s.drop_last();
        lemma_sort_keys_distinct(d);
        lemma_sort_keys_from(d);
        lemma_sort_keys_sorted(d);
        let x = s.last();
        lemma_first_after(sort_keys(d), x);
        let p = first_after(sort_keys(d), x) as int;
        let sd = sort_keys(d);
        let r = sort_keys(s);
        assert forall|t: int| 0 <= t < sd.len() implies sd[t] != x by {
            let q = choose|q: int| 0 <= q < d.len() && sd[t] == d[q];
            assert(d[q] == s[q]);
        }
        assert forall|a: int, b: int| 0 <= a < b < r.len() implies r[a] != r[b] by {
            if b < p {
                assert(r[a] == sd[a] && r[b] == sd[b]);
            } else if b == p {
                assert(r[b] == x && r[a] == sd[a]);
            } else if a < p {
                assert(r[a] == sd[a] && r[b] == sd[b - 1]);
            } else if a == p {
                assert(r[a] == x && r[b] == sd[b - 1]);
            } else {
                assert(r[a] == sd[a - 1] && r[b] == sd[b - 1]);
            }
        }
    }
}

/// The keys in ascending order.
pub fn sorted_keys(v: &Vec<SortKey>) -> (r: Vec<SortKey>)
    ensures
        r@ == sort_keys(v@),
        keys_sorted(r@),
        r@.len() == v@.len(),
{
    let mut out: Vec<SortKey> = Vec::new();
    let mut i: usize = 0;
    while i < v.len()
        invariant
            i <= v@.len(),
            out@ == sort_keys(v@.take(i as int)),
        decreases v@.len() - i,
    {
        let x = v[i];
        proof {
            lemma_sort_keys_sorted(v@.take(i as int));
        }
        let mut p: usize = 0;
        while p < out.len() && !key_lt_exec(x, out[p])
            invariant
                p <= out@.len(),
                forall|q: int| 0 <= q < p ==> !key_lt(x, #[trigger] out@[q]),
            decreases out@.len() - p,
        {
            p = p + 1;
        }
        proof {
            lemma_first_after_is(out@, x, p as int);
            assert(v@.take(i + 1).drop_last() =~= v@.take(i as int));
            assert(v@.take(i + 1).last() == x);
        }
        out.insert(p, x);
        i = i + 1;
    }
    assert(v@.take(v@.len() as int) =~= v@);
    proof {
        lemma_sort_keys_sorted(v@);
    }
    out
}

} // verus!
