//! Spatial clustering: merging the runs of one paragraph, and merging
//! consecutive runs that sit next to each other on the page.
use vstd::prelude::*;
use crate::config::{ElementClusteringConfig, SpatialClusteringConfig};
use crate::geometry::{BoundingBox, contained_in, merge_bounding_boxes, union_all, union_spec, lemma_union_edges};
use crate::text::join_with_space;
use crate::order::{SortKey, key_lt, keys_sorted, lemma_sort_keys_from, lemma_sort_keys_sorted, sort_keys, sorted_keys};
use crate::types::{ParsedElementType, ParsedPdfElement};
use vstd::string::StrSliceExecFns;

verus! {

/// The grouping key of paragraph merging.
pub open spec fn para_key(e: ParsedPdfElement) -> (u32, u32) {
    (e.page_number, e.paragraph_number)
}

/// The elements of `s` with key `k`, in order.
pub open spec fn members(s: Seq<ParsedPdfElement>, k: (u32, u32)) -> Seq<ParsedPdfElement>
    decreases s.len(),
{
    if s.len() == 0 {
        Seq::empty()
    } else {
        let m = members(s.drop_last(), k);
        if para_key(s.last()) == k {
            m.push(s.last())
        } else {
            m
        }
    }
}

/// The distinct keys of `s`, in order of first appearance.
pub open spec fn first_keys(s: Seq<ParsedPdfElement>) -> Seq<(u32, u32)>
    decreases s.len(),
{
    if s.len() == 0 {
        Seq::empty()
    } else {
        let ks = first_keys(s.drop_last());
        if ks.contains(para_key(s.last())) {
            ks
        } else {
            ks.push(para_key(s.last()))
        }
    }
}

/// The texts of `g` joined by single spaces.
pub open spec fn joined_text(g: Seq<ParsedPdfElement>) -> Seq<char>
    decreases g.len(),
{
    if g.len() <= 1 {
        if g.len() == 1 {
            g[0].text@
        } else {
            Seq::empty()
        }
    } else {
        joined_text(g.drop_last()) + seq![' '] + g.last().text@
    }
}

/// The total token count of `g`.
pub open spec fn token_sum(g: Seq<ParsedPdfElement>) -> nat
    decreases g.len(),
{
    if g.len() == 0 {
        0
    } else {
        token_sum(g.drop_last()) + g.last().token_count as nat
    }
}

/// The boxes of `g`, in order.
pub open spec fn boxes_of(g: Seq<ParsedPdfElement>) -> Seq<BoundingBox> {
    g.map_values(|e: ParsedPdfElement| e.bounding_box)
}

/// `m` is the merger of the non-empty group `g`: the first element, with
/// the joined text, the union of the boxes and the summed token count.
pub open spec fn is_merger(m: ParsedPdfElement, g: Seq<ParsedPdfElement>) -> bool {
    let f = g[0];
    &&& m.text@ == joined_text(g)
    &&& m.bounding_box == union_all(boxes_of(g))
    &&& m.token_count == token_sum(g)
    &&& m.element_type == f.element_type
    &&& m.hierarchy_level == f.hierarchy_level
    &&& m.position == f.position
    &&& m.style_info == f.style_info
    &&& m.page_number == f.page_number
    &&& m.paragraph_number == f.paragraph_number
    &&& m.reading_order == f.reading_order
    &&& m.bookmark_match == f.bookmark_match
}

/// Every box is well formed.
pub open spec fn boxes_wf(s: Seq<ParsedPdfElement>) -> bool {
    forall|i: int| 0 <= i < s.len() ==> (#[trigger] s[i]).bounding_box.wf()
}

/// Elements run in reading order: by page, then by reading order.
pub open spec fn in_reading_order(s: Seq<ParsedPdfElement>) -> bool {
    forall|i: int, j: int|
        0 <= i < j < s.len() ==> (#[trigger] s[i]).page_number < (#[trigger] s[j]).page_number || (
        s[i].page_number == s[j].page_number && s[i].reading_order <= s[j].reading_order)
}

/// The union of a non-empty run of well-formed boxes is their tight
/// axis-aligned union: well formed, holding every box, and with each edge
/// taken from one of them.
pub proof fn lemma_union_all_tight(b: Seq<BoundingBox>)
    requires
        b.len() > 0,
        forall|i: int| 0 <= i < b.len() ==> (#[trigger] b[i]).wf(),
    ensures
        union_all(b).wf(),
        forall|i: int| 0 <= i < b.len() ==> contained_in(#[trigger] b[i], union_all(b)),
        exists|i: int| 0 <= i < b.len() && union_all(b).x == (#[trigger] b[i]).x,
        exists|i: int| 0 <= i < b.len() && union_all(b).y == (#[trigger] b[i]).y,
        exists|i: int| 0 <= i < b.len() && union_all(b).right() == (#[trigger] b[i]).right(),
        exists|i: int| 0 <= i < b.len() && union_all(b).bottom() == (#[trigger] b[i]).bottom(),
    decreases b.len(),
{
    if b.len() > 1 {
        let p = b.drop_last();
        assert forall|i: int| 0 <= i < p.len() implies (#[trigger] p[i]).wf() by {
            assert(p[i] == b[i]);
        }
        lemma_union_all_tight(p);
        lemma_union_edges(union_all(p), b.last());
        assert forall|i: int| 0 <= i < b.len() implies contained_in(#[trigger] b[i], union_all(b)) by {
            if i < b.len() - 1 {
                assert(b[i] == p[i]);
                assert(contained_in(p[i], union_all(p)));
            }
        }
        let ix = choose|i: int| 0 <= i < p.len() && union_all(p).x == (#[trigger] p[i]).x;
        let iy = choose|i: int| 0 <= i < p.len() && union_all(p).y == (#[trigger] p[i]).y;
        let ir = choose|i: int| 0 <= i < p.len() && union_all(p).right() == (#[trigger] p[i]).right();
        let ib = choose|i: int| 0 <= i < p.len() && union_all(p).bottom() == (#[trigger] p[i]).bottom();
        assert(b[ix] == p[ix] && b[iy] == p[iy] && b[ir] == p[ir] && b[ib] == p[ib]);
        let l = b.len() - 1;
        assert(b[l] == b.last());
    } else {
        assert(b[0] == union_all(b));
    }
}

proof fn lemma_token_sum_bound(s: Seq<ParsedPdfElement>, k: (u32, u32))
    ensures
        token_sum(members(s, k)) <= token_sum(s),
    decreases s.len(),
{
    if s.len() > 0 {
        lemma_token_sum_bound(s.drop_last(), k);
        if para_key(s.last()) == k {
            assert(members(s, k).drop_last() =~= members(s.drop_last(), k));
        }
    }
}

proof fn lemma_members_wf(s: Seq<ParsedPdfElement>, k: (u32, u32))
    requires
        boxes_wf(s),
    ensures
        boxes_wf(members(s, k)),
        forall|i: int| 0 <= i < members(s, k).len() ==> para_key(#[trigger] members(s, k)[i]) == k,
    decreases s.len(),
{
    if s.len() > 0 {
        lemma_members_wf(s.drop_last(), k);
    }
}

proof fn lemma_take_token_sum(s: Seq<ParsedPdfElement>, i: int)
    requires
        0 <= i <= s.len(),
    ensures
        token_sum(s.take(i)) <= token_sum(s),
    decreases s.len() - i,
{
    if i < s.len() {
        lemma_take_token_sum(s, i + 1);
        assert(s.take(i + 1).drop_last() =~= s.take(i));
    } else {
        assert(s.take(i) =~= s);
    }
}

proof fn lemma_first_keys_members(s: Seq<ParsedPdfElement>)
    ensures
        forall|j: int| 0 <= j < first_keys(s).len() ==> members(s, #[trigger] first_keys(s)[j]).len() > 0,
        forall|i: int, j: int| 0 <= i < j < first_keys(s).len() ==> first_keys(s)[i] != first_keys(s)[j],
    decreases s.len(),
{
    if s.len() > 0 {
        lemma_first_keys_members(s.drop_last());
        let ks = first_keys(s.drop_last());
        assert forall|j: int| 0 <= j < first_keys(s).len() implies members(s, #[trigger] first_keys(s)[j]).len() > 0 by {
            if j < ks.len() {
                assert(first_keys(s)[j] == ks[j]);
                assert(members(s.drop_last(), ks[j]).len() > 0);
            }
        }
    }
}

/// The sort keys (reading order, 0, index) of the elements of `s` with key
/// `k`, in input order.
pub open spec fn member_keys(s: Seq<ParsedPdfElement>, k: (u32, u32)) -> Seq<SortKey>
    decreases s.len(),
{
    if s.len() == 0 {
        Seq::empty()
    } else {
        let m = member_keys(s.drop_last(), k);
        if para_key(s.last()) == k {
            m.push((s.last().reading_order as i64, 0i64, (s.len() - 1) as usize))
        } else {
            m
        }
    }
}

/// The elements of paragraph `k`, ordered by reading order (ties in input
/// order).
pub open spec fn sorted_group(s: Seq<ParsedPdfElement>, k: (u32, u32)) -> Seq<ParsedPdfElement> {
    sort_keys(member_keys(s, k)).map_values(|key: SortKey| s[key.2 as int])
}

/// The order of the merged paragraphs: by page, then by the reading order
/// of their first run (ties in order of first appearance).
pub open spec fn group_order(s: Seq<ParsedPdfElement>) -> Seq<SortKey> {
    let ks = first_keys(s);
    sort_keys(
        Seq::new(
            ks.len(),
            |j: int| (ks[j].0 as i64, sorted_group(s, ks[j])[0].reading_order as i64, j as usize),
        ),
    )
}

proof fn lemma_member_keys(s: Seq<ParsedPdfElement>, k: (u32, u32))
    requires
        s.len() <= usize::MAX,
    ensures
        member_keys(s, k).len() == members(s, k).len(),
        forall|q: int| 0 <= q < member_keys(s, k).len() ==> {
            let key = #[trigger] member_keys(s, k)[q];
            &&& (key.2 as int) < s.len()
            &&& para_key(s[key.2 as int]) == k
            &&& key.0 == s[key.2 as int].reading_order as i64
        },
    decreases s.len(),
{
    if s.len() > 0 {
        lemma_member_keys(s.drop_last(), k);
        let d = s.drop_last();
        assert forall|q: int| 0 <= q < member_keys(s, k).len() implies {
            let key = #[trigger] member_keys(s, k)[q];
            &&& (key.2 as int) < s.len()
            &&& para_key(s[key.2 as int]) == k
            &&& key.0 == s[key.2 as int].reading_order as i64
        } by {
            if q < member_keys(d, k).len() {
                let key = member_keys(d, k)[q];
                assert(member_keys(s, k)[q] == key);
                assert(s[key.2 as int] == d[key.2 as int]);
            } else {
                assert(s[s.len() - 1] == s.last());
                assert(para_key(s.last()) == k);
                assert(member_keys(s, k) == member_keys(d, k).push((s.last().reading_order as i64, 0i64, (s.len() - 1) as usize)));
            }
        }
    }
}

/// The elements of the sorted group: each from the input, with key `k`.
proof fn lemma_sorted_group(s: Seq<ParsedPdfElement>, k: (u32, u32))
    requires
        s.len() <= usize::MAX,
    ensures
        sorted_group(s, k).len() == members(s, k).len(),
        forall|t: int| 0 <= t < sort_keys(member_keys(s, k)).len() ==> {
            let key = #[trigger] sort_keys(member_keys(s, k))[t];
            &&& (key.2 as int) < s.len()
            &&& para_key(s[key.2 as int]) == k
            &&& key.0 == s[key.2 as int].reading_order as i64
        },
{
    lemma_member_keys(s, k);
    lemma_sort_keys_sorted(member_keys(s, k));
    lemma_sort_keys_from(member_keys(s, k));
    let mk = member_keys(s, k);
    assert forall|t: int| 0 <= t < sort_keys(mk).len() implies {
        let key = #[trigger] sort_keys(mk)[t];
        &&& (key.2 as int) < s.len()
        &&& para_key(s[key.2 as int]) == k
        &&& key.0 == s[key.2 as int].reading_order as i64
    } by {
        let q = choose|q: int| 0 <= q < mk.len() && sort_keys(mk)[t] == mk[q];
        assert(mk[q] == sort_keys(mk)[t]);
    }
}

/// Builds the sort keys of paragraph `k`.
fn member_keys_of(elements: &Vec<ParsedPdfElement>, k: (u32, u32)) -> (r: Vec<SortKey>)
    ensures
        r@ == member_keys(elements@, k),
{
    let ghost s = elements@;
    let mut out: Vec<SortKey> = Vec::new();
    let mut i: usize = 0;
    while i < elements.len()
        invariant
            s == elements@,
            i <= s.len(),
            out@ == member_keys(s.take(i as int), k),
        decreases s.len() - i,
    {
        assert(s.take(i + 1).drop_last() =~= s.take(i as int));
        assert(s.take(i + 1).last() == s[i as int]);
        let e = &elements[i];
        if e.page_number == k.0 && e.paragraph_number == k.1 {
            out.push((e.reading_order as i64, 0i64, i));
        }
        i = i + 1;
    }
    assert(s.take(s.len() as int) =~= s);
    out
}

/// Merges paragraph `k` in reading order; `None` when its token counts do
/// not fit in a machine word.
#[verifier::rlimit(60)]
fn merge_group(elements: &Vec<ParsedPdfElement>, k: (u32, u32)) -> (r: Option<ParsedPdfElement>)
    requires
        members(elements@, k).len() > 0,
        boxes_wf(elements@),
    ensures
        r is None <==> token_sum(sorted_group(elements@, k)) > usize::MAX,
        r matches Some(m) ==> is_merger(m, sorted_group(elements@, k)) && m.bounding_box.wf(),
{
    let ghost s = elements@;
    let ne = elements.len();
    let mk = member_keys_of(elements, k);
    let order = sorted_keys(&mk);
    proof {
        lemma_sorted_group(s, k);
    }
    let ghost g = sorted_group(s, k);
    let n = order.len();
    let first = order[0].2;
    let mut acc = elements[first].copied();
    assert(g.take(1) =~= seq![g[0]]);
    assert(boxes_of(g.take(1)) =~= seq![g[0].bounding_box]);
    assert(token_sum(g.take(1).drop_last()) == 0);
    let mut t: usize = 1;
    while t < n
        invariant
            s == elements@,
            boxes_wf(s),
            g == sorted_group(s, k),
            order@ == sort_keys(member_keys(s, k)),
            n == order@.len() == g.len(),
            1 <= t <= n,
            is_merger(acc, g.take(t as int)),
            acc.bounding_box.wf(),
            forall|q: int| 0 <= q < order@.len() ==> (#[trigger] order@[q].2 as int) < s.len(),
        decreases n - t,
    {
        let idx = order[t].2;
        let e = &elements[idx];
        assert(g[t as int] == s[idx as int]);
        let ghost h = g.take(t + 1);
        assert(h.drop_last() =~= g.take(t as int));
        assert(h.last() == g[t as int]);
        assert(boxes_of(h).drop_last() =~= boxes_of(g.take(t as int)));
        assert(h[0] == g.take(t as int)[0]);
        if e.token_count > usize::MAX - acc.token_count {
            proof {
                lemma_group_take_sum(g, t + 1);
            }
            return None;
        }
        let text = join_with_space(acc.text.as_str(), e.text.as_str());
        let bbox = merge_bounding_boxes(&acc.bounding_box, &e.bounding_box);
        let tokens = acc.token_count + e.token_count;
        acc.text = text;
        acc.bounding_box = bbox;
        acc.token_count = tokens;
        t = t + 1;
    }
    assert(g.take(n as int) =~= g);
    Some(acc)
}

proof fn lemma_group_take_sum(g: Seq<ParsedPdfElement>, i: int)
    requires
        0 <= i <= g.len(),
    ensures
        token_sum(g.take(i)) <= token_sum(g),
{
    lemma_take_token_sum(g, i);
}

/// Merges the runs of each paragraph (same page and paragraph number) into
/// one element: runs in reading order, texts joined by single spaces, boxes
/// united, token counts summed, the first run's other fields kept. The
/// merged paragraphs come out by page, then by reading order. `None` when
/// a paragraph's token counts do not fit in a machine word.
#[verifier::rlimit(80)]
pub fn cluster_paragraphs(elements: &Vec<ParsedPdfElement>) -> (r: Option<Vec<ParsedPdfElement>>)
    requires
        boxes_wf(elements@),
    ensures
        r is None <==> exists|j: int| 0 <= j < first_keys(elements@).len()
            && token_sum(sorted_group(elements@, #[trigger] first_keys(elements@)[j])) > usize::MAX,
        r matches Some(v) ==> {
            &&& v@.len() == first_keys(elements@).len()
            &&& forall|t: int| 0 <= t < v@.len() ==> is_merger(#[trigger] v@[t], sorted_group(elements@, first_keys(elements@)[group_order(elements@)[t].2 as int]))
            &&& forall|i: int, j: int| 0 <= i < j < v@.len() ==> (#[trigger] v@[i]).page_number < (#[trigger] v@[j]).page_number
                || (v@[i].page_number == v@[j].page_number && v@[i].reading_order <= v@[j].reading_order)
            &&& boxes_wf(v@)
        },
{
    let ghost s = elements@;
    let n = elements.len();
    let mut keys: Vec<(u32, u32)> = Vec::new();
    let mut i: usize = 0;
    while i < n
        invariant
            n == s.len(),
            s == elements@,
            i <= n,
            keys@ == first_keys(s.take(i as int)),
        decreases n - i,
    {
        assert(s.take(i + 1).drop_last() =~= s.take(i as int));
        let k = (elements[i].page_number, elements[i].paragraph_number);
        let mut j: usize = 0;
        while j < keys.len() && !(keys[j].0 == k.0 && keys[j].1 == k.1)
            invariant
                j <= keys@.len(),
                forall|t: int| 0 <= t < j ==> keys@[t] != k,
            decreases keys@.len() - j,
        {
            j = j + 1;
        }
        if j == keys.len() {
            keys.push(k);
        } else {
            assert(keys@.contains(k));
        }
        i = i + 1;
    }
    assert(s.take(n as int) =~= s);
    proof {
        lemma_first_keys_members(s);
    }
    assert(s.len() == n);
    let nk = keys.len();
    let mut merged: Vec<ParsedPdfElement> = Vec::new();
    let mut okeys: Vec<SortKey> = Vec::new();
    let mut j: usize = 0;
    while j < nk
        invariant
            s == elements@,
            keys@ == first_keys(s),
            nk == keys@.len(),
            s.len() <= usize::MAX,
            boxes_wf(s),
            forall|t: int| 0 <= t < keys@.len() ==> members(s, #[trigger] keys@[t]).len() > 0,
            j <= nk,
            merged@.len() == j,
            okeys@.len() == j,
            forall|t: int| 0 <= t < j ==> token_sum(sorted_group(s, #[trigger] keys@[t])) <= usize::MAX,
            forall|t: int| 0 <= t < j ==> is_merger(#[trigger] merged@[t], sorted_group(s, keys@[t])),
            forall|t: int| 0 <= t < j ==> #[trigger] okeys@[t] == (keys@[t].0 as i64, sorted_group(s, keys@[t])[0].reading_order as i64, t as usize),
            forall|q: int| 0 <= q < j ==> (#[trigger] merged@[q]).page_number as i64 == okeys@[q].0 && merged@[q].reading_order as i64 == okeys@[q].1,
            boxes_wf(merged@),
        decreases nk - j,
    {
        let k = keys[j];
        proof {
            lemma_sorted_group(s, k);
        }
        match merge_group(elements, k) {
            None => {
                return None;
            },
            Some(m) => {
                proof {
                    let key = sort_keys(member_keys(s, k))[0];
                    assert(sorted_group(s, k)[0] == s[key.2 as int]);
                }
                okeys.push((m.page_number as i64, m.reading_order as i64, j));
                merged.push(m);
            },
        }
        j = j + 1;
    }
    let order = sorted_keys(&okeys);
    proof {
        lemma_sort_keys_from(okeys@);
        assert(okeys@ =~= Seq::new(
            first_keys(s).len(),
            |j: int| (first_keys(s)[j].0 as i64, sorted_group(s, first_keys(s)[j])[0].reading_order as i64, j as usize),
        ));
    }
    let mut out: Vec<ParsedPdfElement> = Vec::new();
    let mut t: usize = 0;
    while t < nk
        invariant
            s == elements@,
            keys@ == first_keys(s),
            nk == keys@.len() == merged@.len() == okeys@.len() == order@.len(),
            order@ == group_order(s),
            keys_sorted(order@),
            forall|q: int| 0 <= q < order@.len() ==> exists|p: int| 0 <= p < okeys@.len() && #[trigger] order@[q] == okeys@[p],
            forall|q: int| 0 <= q < nk ==> is_merger(#[trigger] merged@[q], sorted_group(s, keys@[q])),
            forall|q: int| 0 <= q < nk ==> #[trigger] okeys@[q] == (keys@[q].0 as i64, sorted_group(s, keys@[q])[0].reading_order as i64, q as usize),
            forall|q: int| 0 <= q < nk ==> (#[trigger] merged@[q]).page_number as i64 == okeys@[q].0 && merged@[q].reading_order as i64 == okeys@[q].1,
            boxes_wf(merged@),
            t <= nk,
            out@.len() == t,
            forall|q: int| 0 <= q < t ==> #[trigger] out@[q] == merged@[order@[q].2 as int],
        decreases nk - t,
    {
        let ghost p = choose|p: int| 0 <= p < okeys@.len() && order@[t as int] == okeys@[p];
        let idx = order[t].2;
        assert(idx as int == p);
        out.push(merged[idx].copied());
        t = t + 1;
    }
    proof {
        assert forall|q: int| 0 <= q < out@.len() implies is_merger(#[trigger] out@[q], sorted_group(s, first_keys(s)[group_order(s)[q].2 as int])) by {
            let p = choose|p: int| 0 <= p < okeys@.len() && order@[q] == okeys@[p];
        }
        assert forall|a: int, b: int| 0 <= a < b < out@.len() implies (#[trigger] out@[a]).page_number < (#[trigger] out@[b]).page_number
            || (out@[a].page_number == out@[b].page_number && out@[a].reading_order <= out@[b].reading_order) by {
            let pa = choose|p: int| 0 <= p < okeys@.len() && order@[a] == okeys@[p];
            let pb = choose|p: int| 0 <= p < okeys@.len() && order@[b] == okeys@[p];
            assert(!key_lt(order@[b], order@[a]));
        }
        assert forall|q: int| 0 <= q < out@.len() implies (#[trigger] out@[q]).bounding_box.wf() by {
            let p = choose|p: int| 0 <= p < okeys@.len() && order@[q] == okeys@[p];
        }
    }
    Some(out)
}

/// Characters of a text, as counted against segment sizes.
pub open spec fn char_len(e: ParsedPdfElement) -> nat {
    e.text@.len()
}

/// The segment bounds for an element type.
pub open spec fn bounds_for(cfg: SpatialClusteringConfig, t: ParsedElementType) -> ElementClusteringConfig {
    if t == ParsedElementType::Section {
        cfg.sections
    } else {
        cfg.paragraphs
    }
}

/// The vertical gap between two boxes (0 when they overlap vertically).
pub open spec fn vertical_gap(a: BoundingBox, b: BoundingBox) -> int {
    if a.bottom() <= b.y {
        b.y - a.bottom()
    } else if b.bottom() <= a.y {
        a.y - b.bottom()
    } else {
        0
    }
}

/// The boxes sit close enough vertically and overlap (or nearly meet)
/// horizontally.
pub open spec fn spec_adjacent(a: BoundingBox, b: BoundingBox, cfg: SpatialClusteringConfig) -> bool {
    let max_gap = (cfg.min_line_height as int) * (cfg.vertical_gap_threshold_multiplier as int) / 1000;
    let span = crate::geometry::max_int(a.right(), b.right()) - crate::geometry::min_int(a.x as int, b.x as int);
    &&& vertical_gap(a, b) <= max_gap
    &&& span < a.width + b.width + cfg.horizontal_alignment_tolerance
}

/// `e` may join the cluster `c`.
pub open spec fn spec_can_merge(c: ParsedPdfElement, e: ParsedPdfElement, cfg: SpatialClusteringConfig) -> bool {
    &&& c.element_type == e.element_type
    &&& c.hierarchy_level == e.hierarchy_level
    &&& c.page_number == e.page_number
    &&& char_len(c) + char_len(e) + 1 <= bounds_for(cfg, c.element_type).max_segment_size
    &&& spec_adjacent(c.bounding_box, e.bounding_box, cfg)
}

/// `e` may join the run `g`, judged against the merger of `g`.
pub open spec fn can_join(g: Seq<ParsedPdfElement>, e: ParsedPdfElement, cfg: SpatialClusteringConfig) -> bool {
    let f = g[0];
    &&& f.element_type == e.element_type
    &&& f.hierarchy_level == e.hierarchy_level
    &&& f.page_number == e.page_number
    &&& joined_text(g).len() + char_len(e) + 1 <= bounds_for(cfg, f.element_type).max_segment_size
    &&& spec_adjacent(union_all(boxes_of(g)), e.bounding_box, cfg)
}

/// The runs of consecutive elements that adjacency clustering merges,
/// over the first `n` elements.
pub open spec fn runs(s: Seq<ParsedPdfElement>, cfg: SpatialClusteringConfig, n: nat) -> Seq<Seq<ParsedPdfElement>>
    decreases n,
{
    if n == 0 {
        Seq::empty()
    } else {
        let rs = runs(s, cfg, (n - 1) as nat);
        let e = s[n - 1];
        if rs.len() > 0 && can_join(rs.last(), e, cfg) {
            rs.update(rs.len() - 1, rs.last().push(e))
        } else {
            rs.push(seq![e])
        }
    }
}

proof fn lemma_runs_shape(s: Seq<ParsedPdfElement>, cfg: SpatialClusteringConfig, n: nat)
    requires
        n <= s.len(),
    ensures
        forall|j: int| 0 <= j < runs(s, cfg, n).len() ==> (#[trigger] runs(s, cfg, n)[j]).len() > 0,
        token_sum_all(runs(s, cfg, n)) == token_sum(s.take(n as int)),
        n > 0 ==> runs(s, cfg, n).len() > 0,
    decreases n,
{
    if n > 0 {
        let m = (n - 1) as nat;
        lemma_runs_shape(s, cfg, m);
        let rs = runs(s, cfg, m);
        let e = s[m as int];
        assert(s.take(n as int).drop_last() =~= s.take(m as int));
        if rs.len() > 0 && can_join(rs.last(), e, cfg) {
            let nr = runs(s, cfg, n);
            assert(nr.drop_last() =~= rs.drop_last());
            assert(nr.last().drop_last() =~= rs.last());
            lemma_token_sum_all_last(rs);
            lemma_token_sum_all_last(nr);
            assert(s.take(n as int).last() == e);
            assert(nr.last() == rs.last().push(e));
            assert(token_sum(nr.last()) == token_sum(rs.last()) + e.token_count);
        } else {
            assert(runs(s, cfg, n).drop_last() =~= rs);
            assert(seq![e].drop_last() =~= Seq::<ParsedPdfElement>::empty());
            assert(s.take(n as int).last() == e);
            assert(token_sum(Seq::<ParsedPdfElement>::empty()) == 0);
            assert(token_sum(seq![e]) == e.token_count);
            lemma_token_sum_all_last(runs(s, cfg, n));
        }
    }
}

/// The token counts of all runs together.
pub open spec fn token_sum_all(rs: Seq<Seq<ParsedPdfElement>>) -> nat
    decreases rs.len(),
{
    if rs.len() == 0 {
        0
    } else {
        token_sum_all(rs.drop_last()) + token_sum(rs.last())
    }
}

proof fn lemma_token_sum_all_last(rs: Seq<Seq<ParsedPdfElement>>)
    requires
        rs.len() > 0,
    ensures
        token_sum_all(rs) == token_sum_all(rs.drop_last()) + token_sum(rs.last()),
{
}

/// Merges runs of consecutive elements of one type, level and page whose
/// boxes sit next to each other, while the merged text stays within the
/// type's segment bound.
#[verifier::rlimit(60)]
pub fn cluster_adjacent(elements: &Vec<ParsedPdfElement>, cfg: &SpatialClusteringConfig) -> (r: Vec<ParsedPdfElement>)
    requires
        boxes_wf(elements@),
        token_sum(elements@) <= usize::MAX,
    ensures
        r@.len() == runs(elements@, *cfg, elements@.len() as nat).len(),
        forall|j: int| 0 <= j < r@.len() ==> is_merger(#[trigger] r@[j], runs(elements@, *cfg, elements@.len() as nat)[j]),
        boxes_wf(r@),
{
    let ghost s = elements@;
    let n = elements.len();
    let mut out: Vec<ParsedPdfElement> = Vec::new();
    let mut i: usize = 0;
    while i < n
        invariant
            n == s.len(),
            s == elements@,
            i <= n,
            boxes_wf(s),
            token_sum(s) <= usize::MAX,
            out@.len() == runs(s, *cfg, i as nat).len(),
            forall|j: int| 0 <= j < out@.len() ==> is_merger(#[trigger] out@[j], runs(s, *cfg, i as nat)[j]),
            boxes_wf(out@),
        decreases n - i,
    {
        proof {
            lemma_runs_shape(s, *cfg, i as nat);
            lemma_runs_shape(s, *cfg, (i + 1) as nat);
            lemma_take_token_sum(s, i + 1);
            assert(s.take(i + 1).drop_last() =~= s.take(i as int));
            assert(s.take(i + 1).last() == s[i as int]);
        }
        let ghost rs = runs(s, *cfg, i as nat);
        let e = &elements[i];
        let len = out.len();
        let joined = if len > 0 {
            proof {
                assert(is_merger(out@[len - 1], rs[len - 1]));
                lemma_token_sum_all_last(rs);
            }
            can_merge_elements(&out[len - 1], e, cfg)
        } else {
            false
        };
        assert(len > 0 ==> joined == can_join(rs.last(), s[i as int], *cfg));
        if joined {
            let c = &out[len - 1];
            let ghost g = rs[len - 1];
            let ghost g2 = g.push(s[i as int]);
            assert(g2.drop_last() =~= g);
            assert(boxes_of(g2).drop_last() =~= boxes_of(g));
            assert(boxes_of(g2).last() == e.bounding_box);
            assert(g2[0] == g[0]);
            let m = ParsedPdfElement {
                element_type: c.element_type,
                text: join_with_space(c.text.as_str(), e.text.as_str()),
                hierarchy_level: c.hierarchy_level,
                position: c.position,
                style_info: c.style_info.copied(),
                bounding_box: merge_bounding_boxes(&c.bounding_box, &e.bounding_box),
                page_number: c.page_number,
                paragraph_number: c.paragraph_number,
                reading_order: c.reading_order,
                bookmark_match: crate::types::copy_bookmark(&c.bookmark_match),
                token_count: c.token_count + e.token_count,
            };
            let ghost prev_out = out@;
            out.set(len - 1, m);
            proof {
                let nr = runs(s, *cfg, (i + 1) as nat);
                assert(nr == rs.update(rs.len() - 1, g2));
                assert(joined_text(g2) == joined_text(g) + seq![' '] + e.text@);
                assert(union_all(boxes_of(g2)) == union_spec(union_all(boxes_of(g)), e.bounding_box));
                assert(token_sum(g2) == token_sum(g) + e.token_count);
                assert forall|j: int| 0 <= j < out@.len() implies is_merger(#[trigger] out@[j], nr[j]) by {
                    if j < len - 1 {
                        assert(out@[j] == prev_out[j]);
                        assert(is_merger(prev_out[j], rs[j]));
                    }
                }
            }
        } else {
            assert(boxes_of(seq![s[i as int]]) =~= seq![e.bounding_box]);
            assert(seq![s[i as int]].drop_last() =~= Seq::<ParsedPdfElement>::empty());
            assert(token_sum(Seq::<ParsedPdfElement>::empty()) == 0);
            let ghost prev_out = out@;
            out.push(e.copied());
            proof {
                let g1 = seq![s[i as int]];
                let nr = runs(s, *cfg, (i + 1) as nat);
                assert(nr == rs.push(g1));
                assert(joined_text(g1) == e.text@);
                assert(union_all(boxes_of(g1)) == e.bounding_box);
                assert(token_sum(g1) == e.token_count);
                assert(is_merger(out@[len as int], g1));
                assert forall|j: int| 0 <= j < out@.len() implies is_merger(#[trigger] out@[j], nr[j]) by {
                    if j < len {
                        assert(out@[j] == prev_out[j]);
                        assert(is_merger(prev_out[j], rs[j]));
                    }
                }
            }
        }
        i = i + 1;
    }
    out
}

/// Whether `e` may join the cluster `c`.
fn can_merge_elements(c: &ParsedPdfElement, e: &ParsedPdfElement, cfg: &SpatialClusteringConfig) -> (r: bool)
    requires
        c.bounding_box.wf(),
        e.bounding_box.wf(),
    ensures
        r == (c.element_type == e.element_type && c.hierarchy_level == e.hierarchy_level
            && c.page_number == e.page_number && c.text@.len() + e.text@.len() + 1 <= bounds_for(
            *cfg,
            c.element_type,
        ).max_segment_size && spec_adjacent(c.bounding_box, e.bounding_box, *cfg)),
{
    if c.element_type != e.element_type || c.hierarchy_level != e.hierarchy_level || c.page_number != e.page_number {
        return false;
    }
    let max = if c.element_type == ParsedElementType::Section {
        cfg.sections.max_segment_size
    } else {
        cfg.paragraphs.max_segment_size
    };
    let a = c.text.as_str().unicode_len();
    let b = e.text.as_str().unicode_len();
    if a > max || b > max - a || max - a - b < 1 {
        return false;
    }
    are_spatially_adjacent(&c.bounding_box, &e.bounding_box, cfg)
}

/// Whether two boxes sit close enough to merge.
pub fn are_spatially_adjacent(a: &BoundingBox, b: &BoundingBox, cfg: &SpatialClusteringConfig) -> (r: bool)
    requires
        a.wf(),
        b.wf(),
    ensures
        r == spec_adjacent(*a, *b, *cfg),
{
    let ab = a.y + a.height;
    let bb = b.y + b.height;
    let gap: i64 = if ab <= b.y {
        b.y - ab
    } else if bb <= a.y {
        a.y - bb
    } else {
        0
    };
    let x: u64 = cfg.min_line_height as u64;
    let y: u64 = cfg.vertical_gap_threshold_multiplier as u64;
    assert(x * y <= 18446744065119617025) by (nonlinear_arith)
        requires
            x <= 0xffff_ffff,
            y <= 0xffff_ffff,
    ;
    let max_gap = (x * y) / 1000;
    if gap as u64 > max_gap {
        return false;
    }
    let ar = a.x + a.width;
    let br = b.x + b.width;
    let right = if ar >= br { ar } else { br };
    let left = if a.x <= b.x { a.x } else { b.x };
    right - left < a.width + b.width + cfg.horizontal_alignment_tolerance as i64
}

} // verus!
