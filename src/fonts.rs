//! Font-usage statistics: which size is body text, and which sizes are
//! larger and rarer than it.
use vstd::prelude::*;
use crate::types::ParsedPdfElement;
use crate::order::{SortKey, key_lt, lemma_sort_keys_covers, lemma_sort_keys_distinct, lemma_sort_keys_from, sort_keys, sorted_keys};

verus! {

/// The size of body text when a document has no text at all: 12 points.
pub const DEFAULT_BODY_SIZE: u32 = 12000;

/// How many of `sizes` equal `s`.
pub open spec fn size_count(sizes: Seq<u32>, s: u32) -> nat
    decreases sizes.len(),
{
    if sizes.len() == 0 {
        0
    } else {
        size_count(sizes.drop_last(), s) + if sizes.last() == s { 1nat } else { 0nat }
    }
}

/// The font sizes of the elements, in order.
pub open spec fn sizes_of(elems: Seq<ParsedPdfElement>) -> Seq<u32> {
    elems.map_values(|e: ParsedPdfElement| e.style_info.font_size)
}

/// One distinct size and the number of elements that use it.
#[derive(Debug, Clone, Copy, PartialEq, Eq, Structural)]
pub struct SizeCount {
    pub size: u32,
    pub count: usize,
}

/// The usage table of `sizes`: each distinct size once, with its count.
pub open spec fn is_usage_table(t: Seq<SizeCount>, sizes: Seq<u32>) -> bool {
    &&& forall|i: int| 0 <= i < t.len() ==> (#[trigger] t[i]).count == size_count(sizes, t[i].size)
        && t[i].count > 0
    &&& forall|i: int, j: int| 0 <= i < j < t.len() ==> t[i].size != t[j].size
    &&& forall|k: int| 0 <= k < sizes.len() ==> #[trigger] has_size(t, sizes[k])
}

/// Size `x` is used before size `y` is first used.
pub open spec fn used_before(sizes: Seq<u32>, x: u32, y: u32) -> bool {
    exists|k: int| 0 <= k < sizes.len() && sizes[k] == x && forall|m: int| 0 <= m <= k ==> #[trigger] sizes[m] != y
}

/// The table lists sizes in order of first use.
pub open spec fn first_use_order(t: Seq<SizeCount>, sizes: Seq<u32>) -> bool {
    forall|a: int, b: int| 0 <= a < b < t.len() ==> #[trigger] used_before(sizes, t[a].size, t[b].size)
}

proof fn lemma_count_present(sizes: Seq<u32>, m: int)
    requires
        0 <= m < sizes.len(),
    ensures
        size_count(sizes, sizes[m]) > 0,
    decreases sizes.len(),
{
    if m < sizes.len() - 1 {
        assert(sizes.drop_last()[m] == sizes[m]);
        lemma_count_present(sizes.drop_last(), m);
    }
}

/// Some entry of `t` is for size `s`.
pub open spec fn has_size(t: Seq<SizeCount>, s: u32) -> bool {
    exists|i: int| 0 <= i < t.len() && #[trigger] t[i].size == s
}

/// Statistics of font-size usage.
#[derive(Debug, Clone)]
pub struct FontSizeAnalysis {
    /// Distinct sizes in order of first use, with their counts.
    pub size_counts: Vec<SizeCount>,
    /// The most used size (the first such in `size_counts` on a tie).
    pub body_text_size: u32,
    /// How many elements use the body size.
    pub max_frequency: usize,
    /// Sizes larger than the body size and used less than half as often,
    /// largest first.
    pub potential_header_sizes: Vec<u32>,
    /// Every distinct size once, largest first.
    pub hierarchy_levels: Vec<u32>,
    /// The size at place n/2 (from 0) of all n sizes in ascending order.
    pub median_size: u32,
    pub min_size: u32,
    pub max_size: u32,
    pub total_elements: usize,
}

/// Size `s` is a header candidate under body size `body` used `maxf` times.
pub open spec fn is_header_size(t: Seq<SizeCount>, s: u32, body: u32, maxf: nat) -> bool {
    exists|i: int|
        0 <= i < t.len() && #[trigger] t[i].size == s && s > body && 2 * t[i].count < maxf
}

impl FontSizeAnalysis {
    /// The analysis describes exactly the sizes `sizes`.
    pub open spec fn describes(&self, sizes: Seq<u32>) -> bool {
        let t = self.size_counts@;
        &&& self.counts_describe(sizes)
        &&& forall|i: int, j: int| 0 <= i < j < self.hierarchy_levels@.len() ==> #[trigger] self.hierarchy_levels@[i] > #[trigger] self.hierarchy_levels@[j]
        &&& forall|x: u32| #![trigger self.hierarchy_levels@.contains(x)] self.hierarchy_levels@.contains(x) <==> has_size(t, x)
        &&& forall|i: int, j: int| 0 <= i < j < self.potential_header_sizes@.len() ==> #[trigger] self.potential_header_sizes@[i] > #[trigger] self.potential_header_sizes@[j]
        &&& (sizes.len() == 0 ==> self.median_size == DEFAULT_BODY_SIZE)
        &&& (sizes.len() > 0 ==> {
            &&& has_size(t, self.median_size)
            &&& count_le(sizes, self.median_size) > sizes.len() / 2
            &&& forall|i: int| 0 <= i < t.len() && (#[trigger] t[i]).size < self.median_size ==> count_le(sizes, t[i].size) <= sizes.len() / 2
        })
    }

    /// The counts, body size, bounds and header set describe `sizes`.
    pub open spec fn counts_describe(&self, sizes: Seq<u32>) -> bool {
        let t = self.size_counts@;
        &&& is_usage_table(t, sizes)
        &&& first_use_order(t, sizes)
        &&& self.total_elements == sizes.len()
        &&& (sizes.len() == 0 ==> self.body_text_size == DEFAULT_BODY_SIZE && self.max_frequency
            == 0 && t.len() == 0)
        &&& (sizes.len() > 0 ==> {
            &&& exists|b: int|
                0 <= b < t.len() && t[b].size == self.body_text_size && t[b].count
                    == self.max_frequency && forall|i: int|
                    0 <= i < b ==> (#[trigger] t[i]).count < self.max_frequency
            &&& forall|i: int| 0 <= i < t.len() ==> (#[trigger] t[i]).count <= self.max_frequency
            &&& forall|k: int| 0 <= k < sizes.len() ==> self.min_size <= #[trigger] sizes[k] <= self.max_size
            &&& exists|k: int| 0 <= k < sizes.len() && sizes[k] == self.min_size
            &&& exists|k: int| 0 <= k < sizes.len() && sizes[k] == self.max_size
        })
        &&& forall|s: u32|
            #![trigger self.potential_header_sizes@.contains(s)]
            self.potential_header_sizes@.contains(s) <==> is_header_size(
                t,
                s,
                self.body_text_size,
                self.max_frequency as nat,
            )
    }

    /// Whether `s` is one of the header candidate sizes.
    pub fn is_potential_header_size(&self, s: u32) -> (r: bool)
        ensures
            r == self.potential_header_sizes@.contains(s),
    {
        let mut i: usize = 0;
        while i < self.potential_header_sizes.len()
            invariant
                i <= self.potential_header_sizes@.len(),
                forall|j: int| 0 <= j < i ==> self.potential_header_sizes@[j] != s,
            decreases self.potential_header_sizes@.len() - i,
        {
            if self.potential_header_sizes[i] == s {
                return true;
            }
            i = i + 1;
        }
        false
    }
}

proof fn lemma_count_push(sizes: Seq<u32>, i: int, s: u32)
    requires
        0 <= i < sizes.len(),
    ensures
        size_count(sizes.take(i + 1), s) == size_count(sizes.take(i), s) + if sizes[i] == s {
            1nat
        } else {
            0nat
        },
{
    assert(sizes.take(i + 1).drop_last() =~= sizes.take(i));
}

proof fn lemma_count_bound(sizes: Seq<u32>, s: u32)
    ensures
        size_count(sizes, s) <= sizes.len(),
    decreases sizes.len(),
{
    if sizes.len() > 0 {
        lemma_count_bound(sizes.drop_last(), s);
    }
}

/// Counts each distinct font size of the elements.
#[verifier::rlimit(60)]
pub fn analyze_font_sizes(elements: &Vec<ParsedPdfElement>) -> (r: FontSizeAnalysis)
    ensures
        r.describes(sizes_of(elements@)),
{
    let ghost sizes = sizes_of(elements@);
    let n = elements.len();
    let mut table: Vec<SizeCount> = Vec::new();
    let mut i: usize = 0;
    while i < n
        invariant
            n == elements@.len(),
            sizes == sizes_of(elements@),
            i <= n,
            is_usage_table(table@, sizes.take(i as int)),
            first_use_order(table@, sizes.take(i as int)),
        decreases n - i,
    {
        let s = elements[i].style_info.font_size;
        assert(sizes[i as int] == s);
        let ghost prev = table@;
        proof {
            assert forall|q: u32| true implies size_count(sizes.take(i + 1), q) == size_count(
                sizes.take(i as int),
                q,
            ) + if sizes[i as int] == q {
                1nat
            } else {
                0nat
            } by {
                lemma_count_push(sizes, i as int, q);
            }
        }
        let mut j: usize = 0;
        while j < table.len() && table[j].size != s
            invariant
                table@ == prev,
                j <= table@.len(),
                forall|t: int| 0 <= t < j ==> table@[t].size != s,
            decreases table@.len() - j,
        {
            j = j + 1;
        }
        let found = j < table.len();
        if found {
            proof {
                lemma_count_bound(sizes.take(i as int), s);
            }
            let c = table[j].count;
            table.set(j, SizeCount { size: s, count: c + 1 });
        } else {
            table.push(SizeCount { size: s, count: 1 });
            proof {
                assert(size_count(sizes.take(i as int), s) == 0) by {
                    if size_count(sizes.take(i as int), s) > 0 {
                        lemma_count_positive(sizes.take(i as int), s);
                        let k = choose|k: int| 0 <= k < i && sizes.take(i as int)[k] == s;
                        assert(has_size(prev, sizes.take(i as int)[k]));
                        let t = choose|t: int| 0 <= t < prev.len() && #[trigger] prev[t].size == sizes.take(i as int)[k];
                    }
                }
            }
        }
        proof {
            let ts = sizes.take(i + 1);
            let tp = sizes.take(i as int);
            assert forall|a: int, b: int| 0 <= a < b < table@.len() implies #[trigger] used_before(ts, table@[a].size, table@[b].size) by {
                if b < prev.len() {
                    assert(table@[a].size == prev[a].size && table@[b].size == prev[b].size);
                    assert(used_before(tp, prev[a].size, prev[b].size));
                    let k = choose|k: int| 0 <= k < tp.len() && tp[k] == prev[a].size && forall|m: int| 0 <= m <= k ==> #[trigger] tp[m] != prev[b].size;
                    assert(ts[k] == tp[k]);
                    assert forall|m: int| 0 <= m <= k implies #[trigger] ts[m] != table@[b].size by {
                        assert(ts[m] == tp[m]);
                    }
                } else {
                    assert(!found);
                    assert(prev[a].count == size_count(tp, prev[a].size) && prev[a].count > 0);
                    lemma_count_positive(tp, prev[a].size);
                    let k = choose|k: int| 0 <= k < tp.len() && tp[k] == prev[a].size;
                    assert(ts[k] == tp[k]);
                    assert forall|m: int| 0 <= m <= k implies #[trigger] ts[m] != table@[b].size by {
                        assert(ts[m] == tp[m]);
                        if tp[m] == s {
                            lemma_count_present(tp, m);
                        }
                    }
                }
            }
            assert forall|k: int| 0 <= k < ts.len() implies #[trigger] has_size(table@, ts[k]) by {
                if k < i {
                    assert(ts[k] == sizes.take(i as int)[k]);
                    assert(has_size(prev, sizes.take(i as int)[k]));
                    let t = choose|t: int| 0 <= t < prev.len() && #[trigger] prev[t].size == sizes.take(i as int)[k];
                    assert(table@[t].size == ts[k]);
                } else {
                    if found {
                        assert(table@[j as int].size == ts[k]);
                    } else {
                        assert(table@[prev.len() as int].size == ts[k]);
                    }
                }
            }
        }
        i = i + 1;
    }
    assert(sizes.take(n as int) =~= sizes);
    let ghost t0 = table@;
    let mut r = finish_analysis(table, elements, Ghost(sizes));
    let (levels, headers) = rank_sizes(&r.size_counts, r.body_text_size, r.max_frequency, Ghost(sizes));
    let median = median_of(elements, &r.size_counts, Ghost(sizes));
    r.hierarchy_levels = levels;
    r.potential_header_sizes = headers;
    r.median_size = median;
    r
}

/// The sort keys (negated size, 0, index) of the table: larger sizes first.
pub open spec fn level_keys(t: Seq<SizeCount>) -> Seq<SortKey> {
    Seq::new(t.len(), |i: int| ((0 - t[i].size as int) as i64, 0i64, i as usize))
}

/// The table's sizes, largest first, and those that are header sizes.
#[verifier::rlimit(80)]
fn rank_sizes(t: &Vec<SizeCount>, body: u32, maxf: usize, sizes: Ghost<Seq<u32>>) -> (r: (Vec<u32>, Vec<u32>))
    requires
        is_usage_table(t@, sizes@),
    ensures
        forall|i: int, j: int| 0 <= i < j < r.0@.len() ==> #[trigger] r.0@[i] > #[trigger] r.0@[j],
        forall|x: u32| #![trigger r.0@.contains(x)] r.0@.contains(x) <==> has_size(t@, x),
        forall|i: int, j: int| 0 <= i < j < r.1@.len() ==> #[trigger] r.1@[i] > #[trigger] r.1@[j],
        forall|x: u32| #![trigger r.1@.contains(x)] r.1@.contains(x) <==> is_header_size(t@, x, body, maxf as nat),
{
    let ghost lk = level_keys(t@);
    let mut keys: Vec<SortKey> = Vec::new();
    let mut i: usize = 0;
    while i < t.len()
        invariant
            lk == level_keys(t@),
            i <= t@.len(),
            keys@ == lk.take(i as int),
        decreases t@.len() - i,
    {
        keys.push(((0i64 - t[i].size as i64), 0i64, i));
        assert(keys@ =~= lk.take(i + 1));
        i = i + 1;
    }
    assert(keys@ =~= lk);
    let order = sorted_keys(&keys);
    proof {
        lemma_sort_keys_from(lk);
        lemma_sort_keys_covers(lk);
        assert forall|a: int, b: int| 0 <= a < b < lk.len() implies lk[a] != lk[b] by {
            assert(lk[a].2 != lk[b].2);
        }
        lemma_sort_keys_distinct(lk);
    }
    let ghost o = order@;
    // sizes along the sorted order strictly decrease
    assert forall|q1: int, q2: int| 0 <= q1 < q2 < o.len() implies (#[trigger] o[q1]).2 < t@.len() && (#[trigger] o[q2]).2 < t@.len()
        && t@[o[q1].2 as int].size > t@[o[q2].2 as int].size by {
        let p1 = choose|p: int| 0 <= p < lk.len() && o[q1] == lk[p];
        let p2 = choose|p: int| 0 <= p < lk.len() && o[q2] == lk[p];
        assert(!key_lt(o[q2], o[q1]));
        assert(o[q1] != o[q2]);
        assert(p1 != p2);
    }
    let mut levels: Vec<u32> = Vec::new();
    let mut headers: Vec<u32> = Vec::new();
    let mut j: usize = 0;
    while j < order.len()
        invariant
            lk == level_keys(t@),
            o == order@,
            o == sort_keys(lk),
            o.len() == lk.len() == t@.len(),
            is_usage_table(t@, sizes@),
            forall|q: int| 0 <= q < o.len() ==> exists|p: int| 0 <= p < lk.len() && #[trigger] o[q] == lk[p],
            forall|q1: int, q2: int| 0 <= q1 < q2 < o.len() ==> (#[trigger] o[q1]).2 < t@.len() && (#[trigger] o[q2]).2 < t@.len()
                && t@[o[q1].2 as int].size > t@[o[q2].2 as int].size,
            j <= o.len(),
            levels@.len() == j,
            forall|q: int| 0 <= q < j ==> #[trigger] levels@[q] == t@[o[q].2 as int].size,
            forall|a: int| 0 <= a < headers@.len() ==> exists|q: int| 0 <= q < j && #[trigger] headers@[a] == t@[o[q].2 as int].size
                && t@[o[q].2 as int].size > body && 2 * t@[o[q].2 as int].count < maxf,
            forall|q: int| 0 <= q < j && t@[(#[trigger] o[q]).2 as int].size > body && 2 * t@[o[q].2 as int].count < maxf
                ==> headers@.contains(t@[o[q].2 as int].size),
            forall|a: int, b: int| 0 <= a < b < headers@.len() ==> #[trigger] headers@[a] > #[trigger] headers@[b],
            forall|a: int| 0 <= a < headers@.len() ==> exists|q: int| 0 <= q < j && #[trigger] headers@[a] == t@[o[q].2 as int].size,
        decreases o.len() - j,
    {
        let p = order[j].2;
        let ghost pp = choose|p: int| 0 <= p < lk.len() && o[j as int] == lk[p];
        assert(p as int == pp);
        let e = t[p];
        levels.push(e.size);
        if e.size > body && (e.count as u128) * 2 < maxf as u128 {
            let ghost before = headers@;
            assert forall|a: int| 0 <= a < before.len() implies before[a] > e.size by {
                let q = choose|q: int| 0 <= q < j && before[a] == t@[o[q].2 as int].size;
            }
            headers.push(e.size);
            proof {
                assert forall|q: int| 0 <= q < j + 1 && t@[(#[trigger] o[q]).2 as int].size > body && 2 * t@[o[q].2 as int].count < maxf
                    implies headers@.contains(t@[o[q].2 as int].size) by {
                    if q < j {
                        let a = choose|a: int| 0 <= a < before.len() && before[a] == t@[o[q].2 as int].size;
                        assert(headers@[a] == before[a]);
                    } else {
                        assert(headers@[before.len() as int] == e.size);
                    }
                }
            }
        }
        j = j + 1;
    }
    proof {
        assert forall|x: u32| #![trigger levels@.contains(x)] levels@.contains(x) <==> has_size(t@, x) by {
            if has_size(t@, x) {
                let i = choose|i: int| 0 <= i < t@.len() && #[trigger] t@[i].size == x;
                assert(o.contains(lk[i]));
                let q = choose|q: int| 0 <= q < o.len() && o[q] == lk[i];
                assert(levels@[q] == x);
            }
            if levels@.contains(x) {
                let q = choose|q: int| 0 <= q < levels@.len() && levels@[q] == x;
                assert(t@[o[q].2 as int].size == x);
            }
        }
        assert forall|x: u32| #![trigger headers@.contains(x)] headers@.contains(x) <==> is_header_size(t@, x, body, maxf as nat) by {
            if is_header_size(t@, x, body, maxf as nat) {
                let i = choose|i: int| 0 <= i < t@.len() && #[trigger] t@[i].size == x && x > body && 2 * t@[i].count < maxf;
                assert(o.contains(lk[i]));
                let q = choose|q: int| 0 <= q < o.len() && o[q] == lk[i];
                assert(o[q].2 == i);
            }
            if headers@.contains(x) {
                let a = choose|a: int| 0 <= a < headers@.len() && headers@[a] == x;
                let q = choose|q: int| 0 <= q < o.len() && headers@[a] == t@[o[q].2 as int].size && t@[o[q].2 as int].size > body && 2 * t@[o[q].2 as int].count < maxf;
                assert(t@[o[q].2 as int].size == x);
            }
        }
    }
    (levels, headers)
}

/// How many of `sizes` are at most `m`.
pub open spec fn count_le(sizes: Seq<u32>, m: u32) -> nat
    decreases sizes.len(),
{
    if sizes.len() == 0 {
        0
    } else {
        count_le(sizes.drop_last(), m) + if sizes.last() <= m { 1nat } else { 0nat }
    }
}

proof fn lemma_count_le_bound(sizes: Seq<u32>, m: u32)
    ensures
        count_le(sizes, m) <= sizes.len(),
    decreases sizes.len(),
{
    if sizes.len() > 0 {
        lemma_count_le_bound(sizes.drop_last(), m);
    }
}

proof fn lemma_count_le_all(sizes: Seq<u32>, m: u32)
    requires
        forall|k: int| 0 <= k < sizes.len() ==> #[trigger] sizes[k] <= m,
    ensures
        count_le(sizes, m) == sizes.len(),
    decreases sizes.len(),
{
    if sizes.len() > 0 {
        assert forall|k: int| 0 <= k < sizes.drop_last().len() implies #[trigger] sizes.drop_last()[k] <= m by {
            assert(sizes.drop_last()[k] == sizes[k]);
        }
        lemma_count_le_all(sizes.drop_last(), m);
        assert(sizes[sizes.len() - 1] <= m);
    }
}

fn count_at_most(elements: &Vec<ParsedPdfElement>, m: u32, sizes: Ghost<Seq<u32>>) -> (r: usize)
    requires
        sizes@ == sizes_of(elements@),
    ensures
        r == count_le(sizes@, m),
{
    let mut c: usize = 0;
    let mut i: usize = 0;
    while i < elements.len()
        invariant
            sizes@ == sizes_of(elements@),
            i <= elements@.len(),
            c == count_le(sizes@.take(i as int), m),
        decreases elements@.len() - i,
    {
        assert(sizes@.take(i + 1).drop_last() =~= sizes@.take(i as int));
        assert(sizes@.take(i + 1).last() == elements@[i as int].style_info.font_size);
        proof {
            lemma_count_le_bound(sizes@.take(i as int), m);
        }
        if elements[i].style_info.font_size <= m {
            c = c + 1;
        }
        i = i + 1;
    }
    assert(sizes@.take(elements@.len() as int) =~= sizes@);
    c
}

/// The smallest used size at or below which more than half the elements
/// lie: the size at place n/2 of the sorted sizes.
fn median_of(elements: &Vec<ParsedPdfElement>, t: &Vec<SizeCount>, sizes: Ghost<Seq<u32>>) -> (r: u32)
    requires
        sizes@ == sizes_of(elements@),
        is_usage_table(t@, sizes@),
    ensures
        sizes@.len() == 0 ==> r == DEFAULT_BODY_SIZE,
        sizes@.len() > 0 ==> {
            &&& has_size(t@, r)
            &&& count_le(sizes@, r) > sizes@.len() / 2
            &&& forall|i: int| 0 <= i < t@.len() && (#[trigger] t@[i]).size < r ==> count_le(sizes@, t@[i].size) <= sizes@.len() / 2
        },
{
    let n = elements.len();
    if n == 0 {
        return DEFAULT_BODY_SIZE;
    }
    let half = n / 2;
    let mut best: Option<u32> = None;
    let mut i: usize = 0;
    while i < t.len()
        invariant
            sizes@ == sizes_of(elements@),
            n == sizes@.len(),
            half == n / 2,
            i <= t@.len(),
            best matches Some(b) ==> has_size(t@, b) && count_le(sizes@, b) > half,
            forall|j: int| 0 <= j < i && count_le(sizes@, (#[trigger] t@[j]).size) > half ==> (best is Some && best->0 <= t@[j].size),
        decreases t@.len() - i,
    {
        let s = t[i].size;
        let c = count_at_most(elements, s, sizes);
        if c > half {
            match best {
                Some(b) => {
                    if s < b {
                        best = Some(s);
                    }
                },
                None => {
                    best = Some(s);
                },
            }
        }
        i = i + 1;
    }
    proof {
        lemma_max_size_exists(sizes@);
        let m = choose|m: int| 0 <= m < sizes@.len() && #[trigger] is_max_at(sizes@, m);
        lemma_count_le_all(sizes@, sizes@[m]);
        assert(has_size(t@, sizes@[m]));
        let j = choose|j: int| 0 <= j < t@.len() && #[trigger] t@[j].size == sizes@[m];
        assert(count_le(sizes@, t@[j].size) > half);
    }
    match best {
        Some(b) => {
            proof {
                assert forall|j: int| 0 <= j < t@.len() && (#[trigger] t@[j]).size < b implies count_le(sizes@, t@[j].size) <= half by {
                }
            }
            b
        },
        None => DEFAULT_BODY_SIZE,
    }
}

pub open spec fn is_max_at(sizes: Seq<u32>, m: int) -> bool {
    forall|q: int| 0 <= q < sizes.len() ==> #[trigger] sizes[q] <= sizes[m]
}

proof fn lemma_max_size_exists(sizes: Seq<u32>)
    requires
        sizes.len() > 0,
    ensures
        exists|m: int| 0 <= m < sizes.len() && #[trigger] is_max_at(sizes, m),
    decreases sizes.len(),
{
    if sizes.len() == 1 {
        assert(is_max_at(sizes, 0));
    } else {
        let d = sizes.drop_last();
        lemma_max_size_exists(d);
        let m = choose|m: int| 0 <= m < d.len() && #[trigger] is_max_at(d, m);
        if sizes.last() >= d[m] {
            let l = sizes.len() - 1;
            assert forall|q: int| 0 <= q < sizes.len() implies #[trigger] sizes[q] <= sizes[l] by {
                if q < l {
                    assert(sizes[q] == d[q]);
                }
            }
            assert(is_max_at(sizes, l));
        } else {
            assert forall|q: int| 0 <= q < sizes.len() implies #[trigger] sizes[q] <= sizes[m] by {
                if q < sizes.len() - 1 {
                    assert(sizes[q] == d[q]);
                }
            }
            assert(is_max_at(sizes, m));
        }
    }
}


proof fn lemma_count_positive(sizes: Seq<u32>, s: u32)
    requires
        size_count(sizes, s) > 0,
    ensures
        exists|k: int| 0 <= k < sizes.len() && sizes[k] == s,
    decreases sizes.len(),
{
    if sizes.last() == s {
        assert(sizes[sizes.len() - 1] == s);
    } else {
        lemma_count_positive(sizes.drop_last(), s);
        let k = choose|k: int| 0 <= k < sizes.drop_last().len() && sizes.drop_last()[k] == s;
        assert(sizes[k] == s);
    }
}

#[verifier::loop_isolation(false)]
#[verifier::rlimit(60)]
fn finish_analysis(table: Vec<SizeCount>, elements: &Vec<ParsedPdfElement>, sizes: Ghost<Seq<u32>>) -> (r: FontSizeAnalysis)
    requires
        sizes@ == sizes_of(elements@),
        is_usage_table(table@, sizes@),
        first_use_order(table@, sizes@),
    ensures
        r.counts_describe(sizes@),
        r.size_counts@ == table@,
{
    let n = elements.len();
    if n == 0 {
        proof {
            if table@.len() > 0 {
                assert(table@[0].count == size_count(sizes@, table@[0].size));
                lemma_count_bound(sizes@, table@[0].size);
            }
        }
        let empty: Vec<u32> = Vec::new();
        return FontSizeAnalysis {
            size_counts: table,
            body_text_size: DEFAULT_BODY_SIZE,
            max_frequency: 0,
            potential_header_sizes: empty,
            hierarchy_levels: Vec::new(),
            median_size: DEFAULT_BODY_SIZE,
            min_size: DEFAULT_BODY_SIZE,
            max_size: DEFAULT_BODY_SIZE,
            total_elements: 0,
        };
    }
    // the first size with the largest count
    assert(has_size(table@, sizes@[0]));
    let mut b: usize = 0;
    let mut j: usize = 1;
    while j < table.len()
        invariant
            1 <= table@.len(),
            b < j <= table@.len(),
            forall|t: int| 0 <= t < j ==> (#[trigger] table@[t]).count <= table@[b as int].count,
            forall|t: int| 0 <= t < b ==> (#[trigger] table@[t]).count < table@[b as int].count,
        decreases table@.len() - j,
    {
        if table[j].count > table[b].count {
            b = j;
        }
        j = j + 1;
    }
    let body = table[b].size;
    let maxf = table[b].count;
    let mut headers: Vec<u32> = Vec::new();
    let mut k: usize = 0;
    while k < table.len()
        invariant
            k <= table@.len(),
            maxf == table@[b as int].count,
            forall|t: int| 0 <= t < table@.len() ==> (#[trigger] table@[t]).count <= maxf,
            forall|s: u32|
                #![trigger headers@.contains(s)]
                headers@.contains(s) <==> exists|i: int|
                    0 <= i < k && #[trigger] table@[i].size == s && s > body && 2 * table@[i].count
                        < maxf,
        decreases table@.len() - k,
    {
        let e = table[k];
        if e.size > body && e.count < maxf - e.count {
            let ghost before = headers@;
            headers.push(e.size);
            proof {
                assert forall|s: u32| #[trigger] headers@.contains(s) <==> exists|i: int|
                    0 <= i < k + 1 && #[trigger] table@[i].size == s && s > body && 2 * table@[i].count
                        < maxf by {
                    if headers@.contains(s) {
                        let q = choose|q: int| 0 <= q < headers@.len() && headers@[q] == s;
                        if q < before.len() {
                            assert(before.contains(s));
                        }
                    }
                    if exists|i: int| 0 <= i < k + 1 && #[trigger] table@[i].size == s && s > body && 2 * table@[i].count < maxf {
                        let i = choose|i: int| 0 <= i < k + 1 && #[trigger] table@[i].size == s && s > body && 2 * table@[i].count < maxf;
                        if i < k {
                            assert(before.contains(s));
                            let q = choose|q: int| 0 <= q < before.len() && before[q] == s;
                            assert(headers@[q] == s);
                        } else {
                            assert(headers@[before.len() as int] == s);
                        }
                    }
                }
            }
        } else {
            proof {
                assert forall|s: u32| #[trigger] headers@.contains(s) <==> exists|i: int|
                    0 <= i < k + 1 && #[trigger] table@[i].size == s && s > body && 2 * table@[i].count
                        < maxf by {
                    if exists|i: int| 0 <= i < k + 1 && #[trigger] table@[i].size == s && s > body && 2 * table@[i].count < maxf {
                        let i = choose|i: int| 0 <= i < k + 1 && #[trigger] table@[i].size == s && s > body && 2 * table@[i].count < maxf;
                        if i == k {
                            assert(table@[i].size == table@[k as int].size);
                        }
                    }
                }
            }
        }
        k = k + 1;
    }
    let mut lo = elements[0].style_info.font_size;
    let mut hi = lo;
    let mut m: usize = 1;
    while m < n
        invariant
            n == elements@.len(),
            sizes@ == sizes_of(elements@),
            1 <= m <= n,
            forall|q: int| 0 <= q < m ==> lo <= #[trigger] sizes@[q] <= hi,
            exists|q: int| 0 <= q < m && sizes@[q] == lo,
            exists|q: int| 0 <= q < m && sizes@[q] == hi,
        decreases n - m,
    {
        let s = elements[m].style_info.font_size;
        assert(sizes@[m as int] == s);
        if s < lo {
            lo = s;
        }
        if s > hi {
            hi = s;
        }
        m = m + 1;
    }
    assert(table@[b as int].size == body && table@[b as int].count == maxf);
    let ghost t = table@;
    assert(sizes@.len() == n);
    assert(exists|q: int| 0 <= q < sizes@.len() && sizes@[q] == lo);
    assert(exists|q: int| 0 <= q < sizes@.len() && sizes@[q] == hi);
    assert(is_usage_table(t, sizes@));
    assert(exists|bb: int|
        0 <= bb < t.len() && t[bb].size == body && t[bb].count == maxf && forall|i: int|
            0 <= i < bb ==> (#[trigger] t[i]).count < maxf);
    assert(forall|i: int| 0 <= i < t.len() ==> (#[trigger] t[i]).count <= maxf);
    assert(forall|k: int| 0 <= k < sizes@.len() ==> lo <= #[trigger] sizes@[k] <= hi);
    assert(forall|s: u32|
        #![trigger headers@.contains(s)]
        headers@.contains(s) <==> is_header_size(t, s, body, maxf as nat));
    FontSizeAnalysis {
        size_counts: table,
        body_text_size: body,
        max_frequency: maxf,
        potential_header_sizes: headers,
        hierarchy_levels: Vec::new(),
        median_size: DEFAULT_BODY_SIZE,
        min_size: lo,
        max_size: hi,
        total_elements: n,
    }
}

} // verus!
