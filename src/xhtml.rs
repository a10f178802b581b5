//! Reading the extractor's XHTML dialect into text elements, metadata, a
//! style table and an outline.
use vstd::prelude::*;
use vstd::string::{StrSliceExecFns, StringSliceAdditionalSpecFns};
use crate::geometry::{BoundingBox, COORD_LIMIT};
use crate::order::{SortKey, key_lt, keys_sorted, lemma_sort_keys_from, sort_keys, sorted_keys};
use crate::numbers::{index_of, lemma_index_of, parse_milli, parse_number_milli, parse_u32, parse_uint};
use crate::text::{str_eq, trim_spec, trim_text};
use crate::types::{BookmarkData, BookmarkSection, DocumentMetadata, FontClass, PdfTextElement};

verus! {

pub const PAGE_PATTERN: &'static str = r#"(?s)<div class="page"[^>]*>(.*?)</div>"#;

pub const PARAGRAPH_PATTERN: &'static str = r"(?s)<p[^>]*>(.*?)</p>";

pub const SPAN_PATTERN: &'static str = r#"<span[^>]*class="([^"]*)"[^>]*data-bbox="([^"]*)"[^>]*data-line="([^"]*)"[^>]*data-segment="([^"]*)"[^>]*>([^<]*)</span>"#;

pub const META_PATTERN: &'static str = r#"<meta\s+name="([^"]*)"[^>]*content="([^"]*)"[^>]*/?>"#;

pub const STYLE_PATTERN: &'static str = r"(?s)<style[^>]*>(.*?)</style>";

pub const FONT_CLASS_PATTERN: &'static str = r"\.(\w+)\s*\{\s*font-family:\s*([^;]+);\s*font-size:\s*([^;]+);\s*font-style:\s*([^;]+);\s*font-weight:\s*([^;]+);\s*color:\s*([^;]+);\s*\}";

pub const LIST_PATTERN: &'static str = r"(?s)<ul>(.*?)</ul>";

pub const LIST_ITEM_PATTERN: &'static str = r"<li>([^<]+)</li>";

/// The capture groups (from group 1 on) of each successive match of
/// `pattern` in `text`.
pub uninterp spec fn regex_groups(pattern: Seq<char>, text: Seq<char>) -> Seq<Seq<Seq<char>>>;

/// Relies on `regex::Regex::new` and `Regex::captures_iter`: the successive
/// non-overlapping matches of `pattern` in `text`, each as the texts of its
/// groups from 1 on (empty for a group that took no part); no match for a
/// pattern that does not compile.
#[verifier::external_body]
pub(crate) fn captures_all(pattern: &str, text: &str) -> (r: Vec<Vec<String>>)
    ensures
        r.deep_view() == regex_groups(pattern@, text@),
{
    match regex::Regex::new(pattern) {
        Ok(re) => re.captures_iter(text).map(
            |c| c.iter().skip(1).map(|m| m.map_or(String::new(), |m| m.as_str().to_string())).collect(),
        ).collect(),
        Err(_) => Vec::new(),
    }
}

/// The size a `font-size` value gives: `Npx` or `N` in thousandths of a
/// point, 12 points when unreadable.
pub open spec fn size_value(s: Seq<char>) -> u32 {
    let body = if s.len() >= 2 && s[s.len() - 2] == 'p' && s[s.len() - 1] == 'x' {
        s.take(s.len() - 2)
    } else {
        s
    };
    match parse_milli(body) {
        Some(v) => if 0 <= v <= u32::MAX {
            v as u32
        } else {
            12000
        },
        None => 12000,
    }
}

fn parse_font_size(s: &str) -> (r: u32)
    ensures
        r == size_value(s@),
{
    let n = s.unicode_len();
    let body = if n >= 2 && s.get_char(n - 2) == 'p' && s.get_char(n - 1) == 'x' {
        s.substring_char(0, n - 2)
    } else {
        s
    };
    proof {
        if n >= 2 && s@[n - 2] == 'p' && s@[n - 1] == 'x' {
            assert(body@ =~= s@.take(n - 2));
        }
    }
    match parse_number_milli(body) {
        Some(v) => if 0 <= v && v <= 0xffff_ffff {
            v as u32
        } else {
            12000
        },
        None => 12000,
    }
}

/// `f` is the font class that the groups `g` of a style rule describe.
pub open spec fn class_from(f: FontClass, g: Seq<Seq<char>>) -> bool {
    &&& f.class_name@ == g[0]
    &&& f.font_family@ == trim_spec(g[1])
    &&& f.font_size == size_value(trim_spec(g[2]))
    &&& f.font_style@ == trim_spec(g[3])
    &&& f.font_weight@ == trim_spec(g[4])
    &&& f.color@ == trim_spec(g[5])
}

/// The class used for a run whose class the style table lacks.
pub open spec fn is_fallback(f: FontClass, name: Seq<char>) -> bool {
    &&& f.class_name@ == name
    &&& f.font_family@ == "unknown"@
    &&& f.font_size == 12000
    &&& f.font_style@ == "normal"@
    &&& f.font_weight@ == "normal"@
    &&& f.color@ == "#000000"@
}

pub fn fallback_font(name: &str) -> (r: FontClass)
    ensures
        is_fallback(r, name@),
{
    FontClass {
        class_name: String::from_str(name),
        font_family: String::from_str("unknown"),
        font_size: 12000,
        font_style: String::from_str("normal"),
        font_weight: String::from_str("normal"),
        color: String::from_str("#000000"),
    }
}

/// The matches of `s` with at least `k` groups, in order.
pub open spec fn with_min_groups(s: Seq<Seq<Seq<char>>>, k: nat) -> Seq<Seq<Seq<char>>>
    decreases s.len(),
{
    if s.len() == 0 {
        s
    } else {
        let t = with_min_groups(s.drop_last(), k);
        if s.last().len() >= k {
            t.push(s.last())
        } else {
            t
        }
    }
}

/// The style rules of the last `<style>` block, in order (rules whose match
/// lacks a group are passed over).
pub open spec fn style_rules(xhtml: Seq<char>) -> Seq<Seq<Seq<char>>> {
    let blocks = regex_groups(STYLE_PATTERN@, xhtml);
    if blocks.len() == 0 || blocks.last().len() < 1 {
        Seq::empty()
    } else {
        with_min_groups(regex_groups(FONT_CLASS_PATTERN@, blocks.last()[0]), 6)
    }
}

/// The style table: one font class per rule of the style block.
#[verifier::rlimit(60)]
pub fn extract_style_data(xhtml: &str) -> (r: Vec<FontClass>)
    ensures
        r@.len() == style_rules(xhtml@).len(),
        forall|i: int| 0 <= i < r@.len() ==> class_from(#[trigger] r@[i], style_rules(xhtml@)[i]),
{
    let blocks = captures_all(STYLE_PATTERN, xhtml);
    let nb = blocks.len();
    if nb == 0 || blocks[nb - 1].len() < 1 {
        return Vec::new();
    }
    let css = &blocks[nb - 1][0];
    let rules = captures_all(FONT_CLASS_PATTERN, css.as_str());
    let ghost all = rules.deep_view();
    let mut out: Vec<FontClass> = Vec::new();
    let mut i: usize = 0;
    while i < rules.len()
        invariant
            all == rules.deep_view(),
            i <= all.len(),
            out@.len() == with_min_groups(all.take(i as int), 6).len(),
            forall|k: int| 0 <= k < out@.len() ==> class_from(#[trigger] out@[k], with_min_groups(all.take(i as int), 6)[k]),
        decreases all.len() - i,
    {
        let g = &rules[i];
        let ghost before = with_min_groups(all.take(i as int), 6);
        assert(all.take(i + 1).drop_last() =~= all.take(i as int));
        assert(all.take(i + 1).last() == all[i as int]);
        if g.len() >= 6 {
            let f = FontClass {
                class_name: g[0].clone(),
                font_family: trim_text(g[1].as_str()),
                font_size: parse_font_size(trim_text(g[2].as_str()).as_str()),
                font_style: trim_text(g[3].as_str()),
                font_weight: trim_text(g[4].as_str()),
                color: trim_text(g[5].as_str()),
            };
            out.push(f);
            proof {
                let after = with_min_groups(all.take(i + 1), 6);
                assert(after == before.push(all[i as int]));
                assert forall|k: int| 0 <= k < out@.len() implies class_from(#[trigger] out@[k], after[k]) by {
                    if k < before.len() {
                        assert(after[k] == before[k]);
                    }
                }
            }
        }
        i = i + 1;
    }
    assert(all.take(all.len() as int) =~= all);
    out
}

/// The class named `name` in the table (the last such), else the fallback
/// class.
pub open spec fn resolved(table: Seq<FontClass>, name: Seq<char>, f: FontClass) -> bool {
    ||| exists|i: int| 0 <= i < table.len() && table[i].class_name@ == name && f == table[i] && forall|j: int| i < j < table.len() ==> (#[trigger] table[j]).class_name@ != name
    ||| (forall|j: int| 0 <= j < table.len() ==> (#[trigger] table[j]).class_name@ != name) && is_fallback(f, name)
}

/// The class named `name` (the last such rule, as a later rule overrides an
/// earlier one), else the fallback class.
pub fn resolve_font(table: &Vec<FontClass>, name: &str) -> (r: FontClass)
    ensures
        resolved(table@, name@, r),
{
    let mut i: usize = table.len();
    while i > 0
        invariant
            i <= table@.len(),
            forall|j: int| i <= j < table@.len() ==> (#[trigger] table@[j]).class_name@ != name@,
        decreases i,
    {
        if str_eq(table[i - 1].class_name.as_str(), name) {
            return table[i - 1].copied();
        }
        i = i - 1;
    }
    fallback_font(name)
}

/// The index of the last match whose name (group 1) is `n1` or `n2`, or -1.
pub open spec fn last_named(ms: Seq<Seq<Seq<char>>>, n1: Seq<char>, n2: Seq<char>) -> int
    decreases ms.len(),
{
    if ms.len() == 0 {
        -1
    } else if ms.last().len() >= 2 && (ms.last()[0] == n1 || ms.last()[0] == n2) {
        ms.len() - 1
    } else {
        last_named(ms.drop_last(), n1, n2)
    }
}

/// The content (group 2) of the last meta entry named `n1` or `n2`.
pub open spec fn meta_value(ms: Seq<Seq<Seq<char>>>, n1: Seq<char>, n2: Seq<char>) -> Option<Seq<char>> {
    let i = last_named(ms, n1, n2);
    if i < 0 {
        None
    } else {
        Some(ms[i][1])
    }
}

proof fn lemma_last_named(ms: Seq<Seq<Seq<char>>>, n1: Seq<char>, n2: Seq<char>)
    ensures
        -1 <= last_named(ms, n1, n2) < ms.len(),
        last_named(ms, n1, n2) >= 0 ==> ms[last_named(ms, n1, n2)].len() >= 2,
    decreases ms.len(),
{
    if ms.len() > 0 {
        lemma_last_named(ms.drop_last(), n1, n2);
    }
}

fn find_last_named(ms: &Vec<Vec<String>>, n1: &str, n2: &str) -> (r: Option<usize>)
    ensures
        r matches Some(i) ==> i == last_named(ms.deep_view(), n1@, n2@),
        r is None ==> last_named(ms.deep_view(), n1@, n2@) == -1,
{
    let ghost all = ms.deep_view();
    let mut k: usize = ms.len();
    assert(all.take(all.len() as int) =~= all);
    while k > 0
        invariant
            all == ms.deep_view(),
            k <= all.len(),
            last_named(all, n1@, n2@) == last_named(all.take(k as int), n1@, n2@),
        decreases k,
    {
        let m = &ms[k - 1];
        assert(all.take(k as int).drop_last() =~= all.take(k - 1));
        assert(all.take(k as int).last() == all[k - 1]);
        if m.len() >= 2 && (str_eq(m[0].as_str(), n1) || str_eq(m[0].as_str(), n2)) {
            return Some(k - 1);
        }
        k = k - 1;
    }
    None
}

fn meta_string(ms: &Vec<Vec<String>>, n1: &str, n2: &str) -> (r: Option<String>)
    ensures
        opt_view(r) == meta_value(ms.deep_view(), n1@, n2@),
{
    proof {
        lemma_last_named(ms.deep_view(), n1@, n2@);
    }
    match find_last_named(ms, n1, n2) {
        Some(i) => Some(ms[i][1].clone()),
        None => None,
    }
}

/// The view of an optional string.
pub open spec fn opt_view(o: Option<String>) -> Option<Seq<char>> {
    match o {
        Some(s) => Some(s@),
        None => None,
    }
}

/// The index of the last page-count entry whose content is a number, or -1.
pub open spec fn last_pages(ms: Seq<Seq<Seq<char>>>) -> int
    decreases ms.len(),
{
    if ms.len() == 0 {
        -1
    } else if ms.last().len() >= 2 && ms.last()[0] == "xmpTPg:NPages"@ && parse_uint(ms.last()[1]) is Some {
        ms.len() - 1
    } else {
        last_pages(ms.drop_last())
    }
}

proof fn lemma_last_pages(ms: Seq<Seq<Seq<char>>>)
    ensures
        -1 <= last_pages(ms) < ms.len(),
        last_pages(ms) >= 0 ==> ms[last_pages(ms)].len() >= 2 && parse_uint(ms[last_pages(ms)][1]) is Some,
    decreases ms.len(),
{
    if ms.len() > 0 {
        lemma_last_pages(ms.drop_last());
    }
}

/// The metadata the meta entries of `xhtml` give: for each field the last
/// entry of its name; the page count from the last numeric page-count entry.
pub open spec fn metadata_of(xhtml: Seq<char>, m: DocumentMetadata) -> bool {
    let ms = regex_groups(META_PATTERN@, xhtml);
    let p = last_pages(ms);
    &&& opt_view(m.title) == meta_value(ms, "dc:title"@, "dc:title"@)
    &&& opt_view(m.author) == meta_value(ms, "dc:creator"@, "dc:creator"@)
    &&& opt_view(m.language) == meta_value(ms, "dc:language"@, "dc:language"@)
    &&& opt_view(m.publisher) == meta_value(ms, "xmp:dc:publisher"@, "dc:publisher"@)
    &&& opt_view(m.creator_tool) == meta_value(ms, "xmp:CreatorTool"@, "xmp:CreatorTool"@)
    &&& opt_view(m.producer) == meta_value(ms, "pdf:producer"@, "pdf:producer"@)
    &&& opt_view(m.pdf_version) == meta_value(ms, "pdf:PDFVersion"@, "pdf:PDFVersion"@)
    &&& opt_view(m.created) == meta_value(ms, "dcterms:created"@, "dcterms:created"@)
    &&& opt_view(m.modified) == meta_value(ms, "dcterms:modified"@, "dcterms:modified"@)
    &&& opt_view(m.description) == meta_value(ms, "dc:description"@, "dc:description"@)
    &&& m.encrypted == match meta_value(ms, "pdf:encrypted"@, "pdf:encrypted"@) {
        Some(v) => Some(v == "true"@),
        None => None,
    }
    &&& m.has_marked_content == match meta_value(ms, "pdf:hasMarkedContent"@, "pdf:hasMarkedContent"@) {
        Some(v) => Some(v == "true"@),
        None => None,
    }
    &&& m.page_count == if p < 0 { 0 } else { parse_uint(ms[p][1])->0 }
}

fn meta_flag(ms: &Vec<Vec<String>>, name: &str) -> (r: Option<bool>)
    ensures
        r == match meta_value(ms.deep_view(), name@, name@) {
            Some(v) => Some(v == "true"@),
            None => None,
        },
{
    match meta_string(ms, name, name) {
        Some(v) => Some(str_eq(v.as_str(), "true")),
        None => None,
    }
}

fn find_last_pages(ms: &Vec<Vec<String>>) -> (r: Option<usize>)
    ensures
        r matches Some(i) ==> i == last_pages(ms.deep_view()),
        r is None ==> last_pages(ms.deep_view()) == -1,
{
    let ghost all = ms.deep_view();
    let mut k: usize = ms.len();
    assert(all.take(all.len() as int) =~= all);
    while k > 0
        invariant
            all == ms.deep_view(),
            k <= all.len(),
            last_pages(all) == last_pages(all.take(k as int)),
        decreases k,
    {
        assert(all.take(k as int).drop_last() =~= all.take(k - 1));
        assert(all.take(k as int).last() == all[k - 1]);
        let m = &ms[k - 1];
        if m.len() >= 2 && str_eq(m[0].as_str(), "xmpTPg:NPages") && parse_u32(m[1].as_str()).is_some() {
            return Some(k - 1);
        }
        k = k - 1;
    }
    None
}

/// Reads the document metadata from the `<meta>` entries.
#[verifier::rlimit(60)]
pub fn extract_enhanced_metadata(xhtml: &str) -> (r: DocumentMetadata)
    ensures
        metadata_of(xhtml@, r),
{
    let ms = captures_all(META_PATTERN, xhtml);
    proof {
        lemma_last_pages(ms.deep_view());
    }
    let page_count: u32 = match find_last_pages(&ms) {
        Some(i) => match parse_u32(ms[i][1].as_str()) {
            Some(v) => v,
            None => 0,
        },
        None => 0,
    };
    DocumentMetadata {
        title: meta_string(&ms, "dc:title", "dc:title"),
        author: meta_string(&ms, "dc:creator", "dc:creator"),
        language: meta_string(&ms, "dc:language", "dc:language"),
        page_count,
        publisher: meta_string(&ms, "xmp:dc:publisher", "dc:publisher"),
        creator_tool: meta_string(&ms, "xmp:CreatorTool", "xmp:CreatorTool"),
        producer: meta_string(&ms, "pdf:producer", "pdf:producer"),
        pdf_version: meta_string(&ms, "pdf:PDFVersion", "pdf:PDFVersion"),
        created: meta_string(&ms, "dcterms:created", "dcterms:created"),
        modified: meta_string(&ms, "dcterms:modified", "dcterms:modified"),
        description: meta_string(&ms, "dc:description", "dc:description"),
        encrypted: meta_flag(&ms, "pdf:encrypted"),
        has_marked_content: meta_flag(&ms, "pdf:hasMarkedContent"),
    }
}

/// Splits at the first comma.
fn split_comma(s: &str) -> (r: Option<(String, String)>)
    ensures
        index_of(s@, ',') < 0 <==> r is None,
        r matches Some(p) ==> p.0@ == s@.take(index_of(s@, ',')) && p.1@ == s@.skip(index_of(s@, ',') + 1),
{
    proof {
        lemma_index_of(s@, ',');
    }
    let n = s.unicode_len();
    let mut i: usize = 0;
    while i < n && s.get_char(i) != ','
        invariant
            i <= n == s@.len(),
            forall|k: int| 0 <= k < i ==> s@[k] != ',',
        decreases n - i,
    {
        i = i + 1;
    }
    if i == n {
        proof {
            if index_of(s@, ',') >= 0 {
                assert(s@[index_of(s@, ',')] == ',');
            }
        }
        return None;
    }
    proof {
        if index_of(s@, ',') < 0 || index_of(s@, ',') > i {
            assert(s@[i as int] == ',');
        }
        if index_of(s@, ',') < i {
            assert(s@[index_of(s@, ',')] == ',');
        }
    }
    let a = s.substring_char(0, i);
    let b = s.substring_char(i + 1, n);
    assert(a@ =~= s@.take(i as int));
    assert(b@ =~= s@.skip(i + 1));
    Some((String::from_str(a), String::from_str(b)))
}

/// The four comma-separated fields of a box attribute.
pub open spec fn box_fields(s: Seq<char>) -> Option<Seq<Seq<char>>> {
    let i1 = index_of(s, ',');
    let r1 = s.skip(i1 + 1);
    let i2 = index_of(r1, ',');
    let r2 = r1.skip(i2 + 1);
    let i3 = index_of(r2, ',');
    let r3 = r2.skip(i3 + 1);
    if i1 < 0 || i2 < 0 || i3 < 0 || index_of(r3, ',') >= 0 {
        None
    } else {
        Some(seq![s.take(i1), r1.take(i2), r2.take(i3), r3])
    }
}

/// The box a `data-bbox` value gives: four numbers `x,y,w,h`, with a
/// non-negative extent inside the coordinate range.
pub open spec fn box_value(s: Seq<char>) -> Option<BoundingBox> {
    match box_fields(s) {
        None => None,
        Some(f) => {
            let (x, y, w, h) = (parse_milli(f[0]), parse_milli(f[1]), parse_milli(f[2]), parse_milli(f[3]));
            if x is Some && y is Some && w is Some && h is Some {
                let b = BoundingBox { x: x->0 as i64, y: y->0 as i64, width: w->0 as i64, height: h->0 as i64 };
                if b.wf() {
                    Some(b)
                } else {
                    None
                }
            } else {
                None
            }
        },
    }
}

proof fn lemma_milli_range(s: Seq<char>)
    ensures
        parse_milli(s) matches Some(v) ==> -1_000_000_000_000 <= v <= 1_000_000_000_000,
{
    let signed = s.len() > 0 && (s[0] == '-' || s[0] == '+');
    let body = if signed { s.drop_first() } else { s };
    let d = index_of(body, '.');
    let ip = if d < 0 { body } else { body.take(d) };
    if parse_milli(s) is Some {
        crate::numbers::lemma_digits_range(ip);
    }
}

/// Reads a `data-bbox` value.
#[verifier::rlimit(60)]
pub fn parse_bbox(s: &str) -> (r: Option<BoundingBox>)
    ensures
        r == box_value(s@),
{
    let (a, r1) = match split_comma(s) {
        Some(p) => p,
        None => {
            return None;
        },
    };
    let (b, r2) = match split_comma(r1.as_str()) {
        Some(p) => p,
        None => {
            return None;
        },
    };
    let (c, d) = match split_comma(r2.as_str()) {
        Some(p) => p,
        None => {
            return None;
        },
    };
    if split_comma(d.as_str()).is_some() {
        return None;
    }
    assert(box_fields(s@) == Some(seq![a@, b@, c@, d@]));
    proof {
        lemma_milli_range(a@);
        lemma_milli_range(b@);
        lemma_milli_range(c@);
        lemma_milli_range(d@);
    }
    let x = match parse_number_milli(a.as_str()) {
        Some(v) => v,
        None => {
            return None;
        },
    };
    let y = match parse_number_milli(b.as_str()) {
        Some(v) => v,
        None => {
            return None;
        },
    };
    let w = match parse_number_milli(c.as_str()) {
        Some(v) => v,
        None => {
            return None;
        },
    };
    let h = match parse_number_milli(d.as_str()) {
        Some(v) => v,
        None => {
            return None;
        },
    };
    let bx = BoundingBox { x, y, width: w, height: h };
    if -COORD_LIMIT <= x && x <= COORD_LIMIT && -COORD_LIMIT <= y && y <= COORD_LIMIT && -COORD_LIMIT <= x + w && x + w <= COORD_LIMIT
        && -COORD_LIMIT <= y + h && y + h <= COORD_LIMIT {
        Some(bx)
    } else {
        None
    }
}

/// A span match is kept: it has all five groups, some text, and a readable
/// box.
pub open spec fn span_kept(g: Seq<Seq<char>>) -> bool {
    g.len() >= 5 && trim_spec(g[4]).len() > 0 && box_value(g[1]) is Some
}

/// The kept span matches, in order.
pub open spec fn kept_spans(s: Seq<Seq<Seq<char>>>) -> Seq<Seq<Seq<char>>>
    decreases s.len(),
{
    if s.len() == 0 {
        s
    } else {
        let t = kept_spans(s.drop_last());
        if span_kept(s.last()) {
            t.push(s.last())
        } else {
            t
        }
    }
}

/// The outline entry whose trimmed title is `text` (the first such), if
/// any.
pub open spec fn bookmark_for(bs: Seq<BookmarkSection>, text: Seq<char>, b: Option<BookmarkSection>) -> bool {
    ||| exists|i: int| 0 <= i < bs.len() && trim_spec(bs[i].title@) == text && b == Some(bs[i]) && forall|j: int| 0 <= j < i ==> trim_spec((#[trigger] bs[j]).title@) != text
    ||| (forall|j: int| 0 <= j < bs.len() ==> trim_spec((#[trigger] bs[j]).title@) != text) && b is None
}

fn find_bookmark(bs: &Vec<BookmarkSection>, text: &str) -> (r: Option<BookmarkSection>)
    ensures
        bookmark_for(bs@, text@, r),
{
    let mut i: usize = 0;
    while i < bs.len()
        invariant
            i <= bs@.len(),
            forall|j: int| 0 <= j < i ==> trim_spec((#[trigger] bs@[j]).title@) != text@,
        decreases bs@.len() - i,
    {
        let t = trim_text(bs[i].title.as_str());
        if str_eq(t.as_str(), text) {
            return Some(bs[i].copied());
        }
        i = i + 1;
    }
    None
}

/// `e` is the text element made of span groups `g`.
pub open spec fn span_fields(
    g: Seq<Seq<char>>,
    page: u32,
    para: u32,
    table: Seq<FontClass>,
    bs: Seq<BookmarkSection>,
    e: PdfTextElement,
) -> bool {
    &&& e.text@ == trim_spec(g[4])
    &&& Some(e.bounding_box) == box_value(g[1])
    &&& e.page_number == page
    &&& e.paragraph_number == para
    &&& e.line_number == match parse_uint(g[2]) { Some(v) => v, None => 0 }
    &&& e.segment_number == match parse_uint(g[3]) { Some(v) => v, None => 0 }
    &&& resolved(table, g[0], e.style_info)
    &&& bookmark_for(bs, e.text@, e.bookmark_match)
    &&& e.token_count == (vstd::utf8::encode_utf8(e.text@).len() as usize) / 4
}

/// `e` is the text element made of span groups `g`, before reading order is
/// assigned.
pub open spec fn span_element(
    g: Seq<Seq<char>>,
    page: u32,
    para: u32,
    table: Seq<FontClass>,
    bs: Seq<BookmarkSection>,
    e: PdfTextElement,
) -> bool {
    span_fields(g, page, para, table, bs, e) && e.reading_order == 0
}

#[verifier::rlimit(60)]
fn span_to_element(
    g: &Vec<String>,
    page_number: u32,
    paragraph_number: u32,
    table: &Vec<FontClass>,
    bookmarks: &Vec<BookmarkSection>,
) -> (r: Option<PdfTextElement>)
    ensures
        r is Some <==> span_kept(g.deep_view()),
        r matches Some(e) ==> span_element(g.deep_view(), page_number, paragraph_number, table@, bookmarks@, e),
{
    if g.len() < 5 {
        return None;
    }
    proof {
        let dv = g.deep_view();
        assert(dv[1] == g@[1]@);
        assert(dv[4] == g@[4]@);
    }
    let text = trim_text(g[4].as_str());
    if text.as_str().unicode_len() == 0 {
        return None;
    }
    let bx = match parse_bbox(g[1].as_str()) {
        Some(b) => b,
        None => {
            return None;
        },
    };
    let line = match parse_u32(g[2].as_str()) {
        Some(v) => v,
        None => 0,
    };
    let segment = match parse_u32(g[3].as_str()) {
        Some(v) => v,
        None => 0,
    };
    let style = resolve_font(table, g[0].as_str());
    let bookmark = find_bookmark(bookmarks, text.as_str());
    let tokens = text.as_str().len() / 4;
    proof {
        let dv = g.deep_view();
        assert(dv[0] == g@[0]@);
        assert(dv[1] == g@[1]@);
        assert(dv[2] == g@[2]@);
        assert(dv[3] == g@[3]@);
        assert(dv[4] == g@[4]@);
    }
    let e = PdfTextElement {
        text,
        style_info: style,
        bounding_box: bx,
        page_number,
        paragraph_number,
        line_number: line,
        segment_number: segment,
        reading_order: 0,
        bookmark_match: bookmark,
        token_count: tokens,
    };
    proof {
        let dv = g.deep_view();
        assert(e.text@ == trim_spec(dv[4]));
        assert(Some(e.bounding_box) == box_value(dv[1]));
        assert(e.line_number == match parse_uint(dv[2]) { Some(v) => v, None => 0 });
        assert(e.segment_number == match parse_uint(dv[3]) { Some(v) => v, None => 0 });
        assert(resolved(table@, dv[0], e.style_info));
        assert(bookmark_for(bookmarks@, e.text@, e.bookmark_match));
        assert(e.token_count == (vstd::utf8::encode_utf8(e.text@).len() as usize) / 4);
    }
    Some(e)
}

/// The text elements of one paragraph: one per kept span, in order.
#[verifier::rlimit(60)]
pub fn extract_spans_from_paragraph(
    paragraph_html: &str,
    page_number: u32,
    paragraph_number: u32,
    table: &Vec<FontClass>,
    bookmarks: &Vec<BookmarkSection>,
) -> (r: Vec<PdfTextElement>)
    ensures
        r@.len() == kept_spans(regex_groups(SPAN_PATTERN@, paragraph_html@)).len(),
        forall|k: int| 0 <= k < r@.len() ==> span_element(
            kept_spans(regex_groups(SPAN_PATTERN@, paragraph_html@))[k],
            page_number,
            paragraph_number,
            table@,
            bookmarks@,
            #[trigger] r@[k],
        ),
{
    let spans = captures_all(SPAN_PATTERN, paragraph_html);
    let ghost all = spans.deep_view();
    let mut out: Vec<PdfTextElement> = Vec::new();
    let mut i: usize = 0;
    while i < spans.len()
        invariant
            all == spans.deep_view(),
            i <= all.len(),
            out@.len() == kept_spans(all.take(i as int)).len(),
            forall|k: int| 0 <= k < out@.len() ==> span_element(kept_spans(all.take(i as int))[k], page_number, paragraph_number, table@, bookmarks@, #[trigger] out@[k]),
        decreases all.len() - i,
    {
        assert(all.take(i + 1).drop_last() =~= all.take(i as int));
        assert(all.take(i + 1).last() == all[i as int]);
        let ghost before = kept_spans(all.take(i as int));
        let g = &spans[i];
        assert(all[i as int] == g.deep_view());
        match span_to_element(g, page_number, paragraph_number, table, bookmarks) {
            Some(e) => {
                out.push(e);
                proof {
                    let after = kept_spans(all.take(i + 1));
                    assert(after == before.push(all[i as int]));
                    assert forall|k: int| 0 <= k < out@.len() implies span_element(after[k], page_number, paragraph_number, table@, bookmarks@, #[trigger] out@[k]) by {
                        if k < before.len() {
                            assert(after[k] == before[k]);
                        }
                    }
                }
            },
            None => {},
        }
        i = i + 1;
    }
    assert(all.take(all.len() as int) =~= all);
    out
}

/// The item matches of the last `<ul>` block.
pub open spec fn outline_items(xhtml: Seq<char>) -> Seq<Seq<Seq<char>>> {
    let lists = regex_groups(LIST_PATTERN@, xhtml);
    if lists.len() == 0 || lists.last().len() < 1 {
        Seq::empty()
    } else {
        regex_groups(LIST_ITEM_PATTERN@, lists.last()[0])
    }
}

/// The trimmed, non-blank item titles, in order.
pub open spec fn outline_titles(items: Seq<Seq<Seq<char>>>) -> Seq<Seq<char>>
    decreases items.len(),
{
    if items.len() == 0 {
        Seq::empty()
    } else {
        let t = outline_titles(items.drop_last());
        if items.last().len() >= 1 && trim_spec(items.last()[0]).len() > 0 {
            t.push(trim_spec(items.last()[0]))
        } else {
            t
        }
    }
}

/// The outline: the trimmed, non-blank titles of the last `<ul>` block,
/// numbered from 0; `None` when there are none.
#[verifier::rlimit(60)]
pub fn extract_bookmark_data(xhtml: &str) -> (r: Option<BookmarkData>)
    ensures
        outline_titles(outline_items(xhtml@)).len() < 0xffff_ffff ==> {
            let ts = outline_titles(outline_items(xhtml@));
            &&& (r is Some <==> ts.len() > 0)
            &&& r matches Some(b) ==> b.sections@.len() == ts.len() && forall|i: int| 0 <= i < ts.len()
                ==> (#[trigger] b.sections@[i]).title@ == ts[i] && b.sections@[i].order == i
        },
{
    let lists = captures_all(LIST_PATTERN, xhtml);
    let nl = lists.len();
    if nl == 0 || lists[nl - 1].len() < 1 {
        assert(outline_items(xhtml@) =~= Seq::<Seq<Seq<char>>>::empty());
        return None;
    }
    assert(lists.deep_view().last() == lists@[nl - 1].deep_view());
    assert(lists.deep_view().last()[0] == lists@[nl - 1]@[0]@);
    let items = captures_all(LIST_ITEM_PATTERN, lists[nl - 1][0].as_str());
    let ghost all = items.deep_view();
    assert(all == outline_items(xhtml@));
    let mut sections: Vec<BookmarkSection> = Vec::new();
    let mut i: usize = 0;
    while i < items.len()
        invariant
            all == items.deep_view(),
            i <= all.len(),
            sections@.len() <= 0xffff_ffff,
            sections@.len() == if outline_titles(all.take(i as int)).len() < 0xffff_ffff {
                outline_titles(all.take(i as int)).len()
            } else {
                0xffff_ffff
            },
            forall|k: int| 0 <= k < sections@.len() ==> (#[trigger] sections@[k]).order == k
                && sections@[k].title@ == outline_titles(all.take(i as int))[k],
        decreases all.len() - i,
    {
        let ghost before = outline_titles(all.take(i as int));
        assert(all.take(i + 1).drop_last() =~= all.take(i as int));
        assert(all.take(i + 1).last() == all[i as int]);
        if items[i].len() >= 1 {
            assert(all[i as int][0] == items@[i as int]@[0]@);
            let title = trim_text(items[i][0].as_str());
            if title.as_str().unicode_len() > 0 && sections.len() < 0xffff_ffff {
                let order = sections.len() as u32;
                sections.push(BookmarkSection { title, order });
                proof {
                    let after = outline_titles(all.take(i + 1));
                    assert(after == before.push(trim_spec(all[i as int][0])));
                    assert forall|k: int| 0 <= k < sections@.len() implies (#[trigger] sections@[k]).order == k
                        && sections@[k].title@ == after[k] by {
                        if k < sections@.len() - 1 {
                            assert(after[k] == before[k]);
                        }
                    }
                }
            } else {
                proof {
                    let after = outline_titles(all.take(i + 1));
                    if title@.len() > 0 {
                        assert(after == before.push(trim_spec(all[i as int][0])));
                        assert forall|k: int| 0 <= k < sections@.len() implies (#[trigger] sections@[k]).order == k
                            && sections@[k].title@ == after[k] by {
                            assert(after[k] == before[k]);
                        }
                    }
                }
            }
        }
        i = i + 1;
    }
    assert(all.take(all.len() as int) =~= all);
    if sections.len() == 0 {
        None
    } else {
        Some(BookmarkData { sections })
    }
}

/// `a` lies above `b`, or level with it and not to its right.
pub open spec fn yx_le(a: PdfTextElement, b: PdfTextElement) -> bool {
    a.bounding_box.y < b.bounding_box.y || (a.bounding_box.y == b.bounding_box.y && a.bounding_box.x <= b.bounding_box.x)
}

proof fn lemma_kept_span(s: Seq<Seq<Seq<char>>>, i: int)
    requires
        0 <= i < kept_spans(s).len(),
    ensures
        span_kept(kept_spans(s)[i]),
    decreases s.len(),
{
    if s.len() > 0 {
        let t = kept_spans(s.drop_last());
        if i < t.len() {
            lemma_kept_span(s.drop_last(), i);
        }
    }
}

proof fn lemma_box_value_wf(s: Seq<char>)
    ensures
        box_value(s) matches Some(b) ==> b.wf(),
{
}

/// Text elements in reading order: by page, then top to bottom and left
/// to right.
pub open spec fn reading_sorted(s: Seq<PdfTextElement>) -> bool {
    forall|i: int, j: int| 0 <= i < j < s.len() ==> {
        let a = #[trigger] s[i];
        let b = #[trigger] s[j];
        a.page_number < b.page_number || (a.page_number == b.page_number && (a.bounding_box.y < b.bounding_box.y
            || (a.bounding_box.y == b.bounding_box.y && a.bounding_box.x <= b.bounding_box.x)))
    }
}

/// The sort keys (y, x, index) of a page's elements.
pub open spec fn page_keys(page: Seq<PdfTextElement>) -> Seq<SortKey> {
    Seq::new(page.len(), |i: int| (page[i].bounding_box.y, page[i].bounding_box.x, i as usize))
}

/// Orders one page's elements top to bottom, then left to right (ties in
/// input order).
#[verifier::rlimit(60)]
pub fn sort_page(page: &Vec<PdfTextElement>) -> (r: Vec<PdfTextElement>)
    ensures
        r@.len() == page@.len(),
        forall|t: int| 0 <= t < r@.len() ==> #[trigger] r@[t] == page@[sort_keys(page_keys(page@))[t].2 as int]
            && (sort_keys(page_keys(page@))[t].2 as int) < page@.len(),
        forall|i: int, j: int| 0 <= i < j < r@.len() ==> yx_le(#[trigger] r@[i], #[trigger] r@[j]),
{
    let mut keys: Vec<SortKey> = Vec::new();
    let mut i: usize = 0;
    while i < page.len()
        invariant
            i <= page@.len(),
            keys@ == page_keys(page@).take(i as int),
        decreases page@.len() - i,
    {
        keys.push((page[i].bounding_box.y, page[i].bounding_box.x, i));
        assert(keys@ =~= page_keys(page@).take(i + 1));
        i = i + 1;
    }
    assert(keys@ =~= page_keys(page@));
    let order = sorted_keys(&keys);
    proof {
        lemma_sort_keys_from(keys@);
    }
    let mut out: Vec<PdfTextElement> = Vec::new();
    let mut j: usize = 0;
    while j < order.len()
        invariant
            order@ == sort_keys(page_keys(page@)),
            keys@ == page_keys(page@),
            keys_sorted(order@),
            order@.len() == page@.len(),
            forall|q: int| 0 <= q < order@.len() ==> exists|p: int| 0 <= p < keys@.len() && #[trigger] order@[q] == keys@[p],
            j <= order@.len(),
            out@.len() == j,
            forall|t: int| 0 <= t < j ==> #[trigger] out@[t] == page@[order@[t].2 as int] && (order@[t].2 as int) < page@.len(),
        decreases order@.len() - j,
    {
        let ghost p = choose|p: int| 0 <= p < keys@.len() && order@[j as int] == keys@[p];
        let k = order[j].2;
        assert(k as int == p);
        out.push(page[k].copied_element());
        j = j + 1;
    }
    assert forall|a: int, b: int| 0 <= a < b < out@.len() implies yx_le(#[trigger] out@[a], #[trigger] out@[b]) by {
        let pa = choose|p: int| 0 <= p < keys@.len() && order@[a] == keys@[p];
        let pb = choose|p: int| 0 <= p < keys@.len() && order@[b] == keys@[p];
        assert(!key_lt(order@[b], order@[a]));
    }
    out
}

/// The number of paragraph matches that hold a paragraph body.
pub open spec fn usable_count(ps: Seq<Seq<Seq<char>>>) -> nat
    decreases ps.len(),
{
    if ps.len() == 0 {
        0
    } else {
        usable_count(ps.drop_last()) + if ps.last().len() >= 1 { 1nat } else { 0nat }
    }
}

/// The paragraph matches of page `p`.
pub open spec fn page_paras(pg: Seq<Seq<Seq<char>>>, p: int) -> Seq<Seq<Seq<char>>> {
    regex_groups(PARAGRAPH_PATTERN@, pg[p][0])
}

/// The number of paragraphs over a run of page matches.
pub open spec fn doc_paras(pg: Seq<Seq<Seq<char>>>) -> nat
    decreases pg.len(),
{
    if pg.len() == 0 {
        0
    } else {
        doc_paras(pg.drop_last()) + if pg.last().len() >= 1 {
            usable_count(regex_groups(PARAGRAPH_PATTERN@, pg.last()[0]))
        } else {
            0
        }
    }
}

/// The number of paragraph `q` of page `p`: how many `<p>` blocks come
/// before it in the document, so distinct blocks get distinct numbers that
/// increase in document order.
pub open spec fn para_number(pg: Seq<Seq<Seq<char>>>, p: int, q: int) -> nat {
    doc_paras(pg.take(p)) + usable_count(page_paras(pg, p).take(q))
}

/// `e` comes from kept span `t` of paragraph `q` of page `p` (1-based page
/// number `p + 1`, paragraph number `para_number(pg, p, q)`).
pub open spec fn span_source(
    pg: Seq<Seq<Seq<char>>>,
    table: Seq<FontClass>,
    bs: Seq<BookmarkSection>,
    p: int,
    q: int,
    t: int,
    e: PdfTextElement,
) -> bool {
    &&& 0 <= p < pg.len()
    &&& pg[p].len() >= 1
    &&& 0 <= q < page_paras(pg, p).len()
    &&& page_paras(pg, p)[q].len() >= 1
    &&& 0 <= t < kept_spans(regex_groups(SPAN_PATTERN@, page_paras(pg, p)[q][0])).len()
    &&& span_fields(
        kept_spans(regex_groups(SPAN_PATTERN@, page_paras(pg, p)[q][0]))[t],
        (p + 1) as u32,
        para_number(pg, p, q) as u32,
        table,
        bs,
        e,
    )
}

/// `e` comes from some kept span of the document.
pub open spec fn sourced(pg: Seq<Seq<Seq<char>>>, table: Seq<FontClass>, bs: Seq<BookmarkSection>, e: PdfTextElement) -> bool {
    exists|p: int, q: int, t: int| #[trigger] span_source(pg, table, bs, p, q, t, e)
}

/// `e` comes from some kept span of page `p`.
pub open spec fn page_sourced(pg: Seq<Seq<Seq<char>>>, table: Seq<FontClass>, bs: Seq<BookmarkSection>, p: int, e: PdfTextElement) -> bool {
    exists|q: int, t: int| #[trigger] span_source(pg, table, bs, p, q, t, e)
}

proof fn lemma_usable_prefix(ps: Seq<Seq<Seq<char>>>, i: int)
    requires
        0 <= i <= ps.len(),
    ensures
        usable_count(ps.take(i)) <= usable_count(ps),
    decreases ps.len() - i,
{
    if i < ps.len() {
        lemma_usable_prefix(ps, i + 1);
        assert(ps.take(i + 1).drop_last() =~= ps.take(i));
    } else {
        assert(ps.take(i) =~= ps);
    }
}

proof fn lemma_doc_paras_prefix(pg: Seq<Seq<Seq<char>>>, i: int)
    requires
        0 <= i <= pg.len(),
    ensures
        doc_paras(pg.take(i)) <= doc_paras(pg),
    decreases pg.len() - i,
{
    if i < pg.len() {
        lemma_doc_paras_prefix(pg, i + 1);
        assert(pg.take(i + 1).drop_last() =~= pg.take(i));
    } else {
        assert(pg.take(i) =~= pg);
    }
}

/// The kept spans of one paragraph match.
pub open spec fn para_spans_of(ph: Seq<Seq<char>>) -> nat {
    if ph.len() >= 1 {
        kept_spans(regex_groups(SPAN_PATTERN@, ph[0])).len()
    } else {
        0
    }
}

/// The kept spans of a run of paragraph matches.
pub open spec fn paras_spans(ps: Seq<Seq<Seq<char>>>) -> nat
    decreases ps.len(),
{
    if ps.len() == 0 {
        0
    } else {
        paras_spans(ps.drop_last()) + para_spans_of(ps.last())
    }
}

/// The kept spans of a run of page matches.
pub open spec fn doc_spans(pg: Seq<Seq<Seq<char>>>) -> nat
    decreases pg.len(),
{
    if pg.len() == 0 {
        0
    } else {
        doc_spans(pg.drop_last()) + if pg.last().len() >= 1 {
            paras_spans(regex_groups(PARAGRAPH_PATTERN@, pg.last()[0]))
        } else {
            0
        }
    }
}

proof fn lemma_doc_spans_prefix(pg: Seq<Seq<Seq<char>>>, i: int)
    requires
        0 <= i <= pg.len(),
    ensures
        doc_spans(pg.take(i)) <= doc_spans(pg),
    decreases pg.len() - i,
{
    if i < pg.len() {
        lemma_doc_spans_prefix(pg, i + 1);
        assert(pg.take(i + 1).drop_last() =~= pg.take(i));
    } else {
        assert(pg.take(i) =~= pg);
    }
}

/// What extraction returns for `xhtml`: elements in reading order, each from
/// a kept span of the document, and (when every page match is usable and
/// the counts fit) one per kept span.
pub open spec fn text_elements_post(xhtml: Seq<char>, table: Seq<FontClass>, bookmarks: Seq<BookmarkSection>, r: Seq<PdfTextElement>) -> bool {
    &&& ({
            let pg = regex_groups(PAGE_PATTERN@, xhtml);
            pg.len() < 0xffff_fffe && (forall|q: int| 0 <= q < pg.len() ==> (#[trigger] pg[q]).len() >= 1)
                && doc_spans(pg) < 0xffff_ffff && doc_paras(pg) < 0xffff_ffff ==> r.len() == doc_spans(pg)
        })
    &&& forall|i: int| 0 <= i < r.len() ==> #[trigger] sourced(regex_groups(PAGE_PATTERN@, xhtml), table, bookmarks, r[i])
    &&& reading_sorted(r)
    &&& forall|i: int| 0 <= i < r.len() ==> (#[trigger] r[i]).reading_order == i && r[i].page_number >= 1
            && r[i].bounding_box.wf() && r[i].text@.len() > 0
}

/// The text elements of the document: the kept spans of every paragraph of
/// every page, pages in order and each page read top to bottom, left to
/// right; reading order is the place in the result, paragraph numbers run
/// on across pages.
#[verifier::rlimit(60)]
pub fn extract_text_elements(
    xhtml: &str,
    table: &Vec<FontClass>,
    bookmarks: &Vec<BookmarkSection>,
) -> (r: Vec<PdfTextElement>)
    ensures
        text_elements_post(xhtml@, table@, bookmarks@, r@),
{
    let pages = captures_all(PAGE_PATTERN, xhtml);
    let ghost pg = pages.deep_view();
    let mut out: Vec<PdfTextElement> = Vec::new();
    let mut paragraph: u32 = 0;
    let mut p: usize = 0;
    while p < pages.len()
        invariant
            p <= pages@.len(),
            pg == pages.deep_view(),
            pg == regex_groups(PAGE_PATTERN@, xhtml@),
            out@.len() == doc_spans(pg.take(p as int)),
            paragraph == doc_paras(pg.take(p as int)),
            forall|i: int| 0 <= i < out@.len() ==> #[trigger] sourced(pg, table@, bookmarks@, out@[i]),
            reading_sorted(out@),
            forall|i: int| 0 <= i < out@.len() ==> (#[trigger] out@[i]).reading_order == i && out@[i].page_number >= 1
                && out@[i].page_number <= p && out@[i].bounding_box.wf() && out@[i].text@.len() > 0,
        decreases pages@.len() - p,
    {
        if p >= 0xffff_fffe || pages[p].len() < 1 {
            assert(pg[p as int].len() == pages@[p as int].len());
            assert(pg == regex_groups(PAGE_PATTERN@, xhtml@));
            assert(pg.len() >= 0xffff_fffe || pg[p as int].len() < 1);
            return out;
        }
        assert(pg[p as int][0] == pages@[p as int]@[0]@);
        let page_number = (p + 1) as u32;
        let paras = captures_all(PARAGRAPH_PATTERN, pages[p][0].as_str());
        let ghost ps = paras.deep_view();
        let mut page_elems: Vec<PdfTextElement> = Vec::new();
        let mut q: usize = 0;
        while q < paras.len()
            invariant
                q <= paras@.len(),
                ps == paras.deep_view(),
                page_elems@.len() == paras_spans(ps.take(q as int)),
                pg == pages.deep_view(),
                pg == regex_groups(PAGE_PATTERN@, xhtml@),
                p < pg.len(),
                pg[p as int].len() >= 1,
                ps == page_paras(pg, p as int),
                page_number == p + 1,
                paragraph == para_number(pg, p as int, q as int),
                forall|i: int| 0 <= i < page_elems@.len() ==> #[trigger] page_sourced(pg, table@, bookmarks@, p as int, page_elems@[i]),
                forall|i: int| 0 <= i < out@.len() ==> #[trigger] sourced(pg, table@, bookmarks@, out@[i]),
                reading_sorted(out@),
                forall|i: int| 0 <= i < out@.len() ==> (#[trigger] out@[i]).reading_order == i && out@[i].page_number >= 1
                    && out@[i].page_number <= p && out@[i].bounding_box.wf() && out@[i].text@.len() > 0,
                forall|i: int| 0 <= i < page_elems@.len() ==> (#[trigger] page_elems@[i]).page_number == page_number
                    && page_elems@[i].bounding_box.wf() && page_elems@[i].text@.len() > 0,
            decreases paras@.len() - q,
        {
            assert(ps.take(q + 1).drop_last() =~= ps.take(q as int));
            assert(ps.take(q + 1).last() == ps[q as int]);
            assert(ps[q as int].len() == paras@[q as int].len());
            if paras[q].len() >= 1 {
                assert(ps[q as int][0] == paras@[q as int]@[0]@);
                if paragraph == 0xffff_ffff {
                    proof {
                        lemma_usable_prefix(ps, q + 1);
                        lemma_doc_paras_prefix(pg, p + 1);
                        assert(pg.take(p + 1).drop_last() =~= pg.take(p as int));
                        assert(pg.take(p + 1).last() == pg[p as int]);
                    }
                    return out;
                }
                let ghost before = page_elems@;
                let mut spans = extract_spans_from_paragraph(paras[q][0].as_str(), page_number, paragraph, table, bookmarks);
                proof {
                    let ks = kept_spans(regex_groups(SPAN_PATTERN@, paras@[q as int]@[0]@));
                    assert forall|i: int| 0 <= i < spans@.len() implies (#[trigger] spans@[i]).page_number == page_number
                        && spans@[i].bounding_box.wf() && spans@[i].text@.len() > 0 by {
                        assert(span_element(ks[i], page_number, paragraph, table@, bookmarks@, spans@[i]));
                        lemma_kept_span(regex_groups(SPAN_PATTERN@, paras@[q as int]@[0]@), i);
                        lemma_box_value_wf(ks[i][1]);
                    }
                }
                let ghost sp = spans@;
                page_elems.append(&mut spans);
                proof {
                    let ks = kept_spans(regex_groups(SPAN_PATTERN@, paras@[q as int]@[0]@));
                    assert forall|i: int| 0 <= i < page_elems@.len() implies #[trigger] page_sourced(pg, table@, bookmarks@, p as int, page_elems@[i]) by {
                        if i < before.len() {
                            assert(page_elems@[i] == before[i]);
                        } else {
                            let t = i - before.len();
                            assert(page_elems@[i] == sp[t]);
                            assert(span_element(ks[t], page_number, paragraph, table@, bookmarks@, sp[t]));
                            assert(span_source(pg, table@, bookmarks@, p as int, q as int, t, page_elems@[i]));
                        }
                    }
                }
                paragraph = paragraph + 1;
            }
            q = q + 1;
        }
        assert(ps.take(ps.len() as int) =~= ps);
        let sorted = sort_page(&page_elems);
        proof {
            assert forall|i: int| 0 <= i < sorted@.len() implies (#[trigger] sorted@[i]).page_number == page_number
                && sorted@[i].bounding_box.wf() && sorted@[i].text@.len() > 0 by {
                let q = sort_keys(page_keys(page_elems@))[i].2 as int;
                assert(sorted@[i] == page_elems@[q]);
            }
            assert forall|i: int| 0 <= i < sorted@.len() implies #[trigger] page_sourced(pg, table@, bookmarks@, p as int, sorted@[i]) by {
                let q = sort_keys(page_keys(page_elems@))[i].2 as int;
                assert(sorted@[i] == page_elems@[q]);
            }
        }
        let mut k: usize = 0;
        while k < sorted.len()
            invariant
                k <= sorted@.len(),
                p < 0xffff_fffe,
                p < pg.len(),
                page_number == p + 1,
                pg == pages.deep_view(),
                pg == regex_groups(PAGE_PATTERN@, xhtml@),
                pg[p as int].len() >= 1,
                sorted@.len() == paras_spans(regex_groups(PARAGRAPH_PATTERN@, pg[p as int][0])),
                ps == page_paras(pg, p as int),
                paragraph == para_number(pg, p as int, ps.len() as int),
                forall|i: int| 0 <= i < sorted@.len() ==> #[trigger] page_sourced(pg, table@, bookmarks@, p as int, sorted@[i]),
                forall|i: int| 0 <= i < out@.len() ==> #[trigger] sourced(pg, table@, bookmarks@, out@[i]),
                out@.len() == doc_spans(pg.take(p as int)) + k,
                forall|i: int| 0 <= i < sorted@.len() ==> (#[trigger] sorted@[i]).page_number == page_number
                    && sorted@[i].bounding_box.wf() && sorted@[i].text@.len() > 0,
                forall|i: int, j: int| 0 <= i < j < sorted@.len() ==> {
                    let a = #[trigger] sorted@[i];
                    let b = #[trigger] sorted@[j];
                    a.bounding_box.y < b.bounding_box.y || (a.bounding_box.y == b.bounding_box.y && a.bounding_box.x <= b.bounding_box.x)
                },
                reading_sorted(out@),
                forall|i: int| 0 <= i < out@.len() ==> (#[trigger] out@[i]).reading_order == i && out@[i].page_number >= 1
                    && out@[i].page_number <= p + 1 && out@[i].bounding_box.wf() && out@[i].text@.len() > 0,
                forall|i: int| 0 <= i < out@.len() ==> (#[trigger] out@[i]).page_number < page_number || (k > 0
                    && yx_le(out@[i], sorted@[k - 1])),
            decreases sorted@.len() - k,
        {
            if out.len() >= 0xffff_ffff {
                proof {
                    lemma_doc_spans_prefix(pg, p + 1);
                    assert(pg.take(p + 1).drop_last() =~= pg.take(p as int));
                    assert(pg.take(p + 1).last() == pg[p as int]);
                }
                return out;
            }
            let mut e = sorted[k].copied_element();
            e.reading_order = out.len() as u32;
            let ghost prev = out@;
            out.push(e);
            proof {
                assert forall|i: int| 0 <= i < out@.len() implies #[trigger] sourced(pg, table@, bookmarks@, out@[i]) by {
                    if i < prev.len() {
                        assert(out@[i] == prev[i]);
                    } else {
                        assert(page_sourced(pg, table@, bookmarks@, p as int, sorted@[k as int]));
                        let qt = choose|qq: int, tt: int| #[trigger] span_source(pg, table@, bookmarks@, p as int, qq, tt, sorted@[k as int]);
                        assert(span_source(pg, table@, bookmarks@, p as int, qt.0, qt.1, out@[i]));
                    }
                }
                assert forall|i: int, j: int| 0 <= i < j < out@.len() implies {
                    let a = #[trigger] out@[i];
                    let b = #[trigger] out@[j];
                    a.page_number < b.page_number || (a.page_number == b.page_number && (a.bounding_box.y < b.bounding_box.y
                        || (a.bounding_box.y == b.bounding_box.y && a.bounding_box.x <= b.bounding_box.x)))
                } by {
                    if j < prev.len() {
                        assert(out@[i] == prev[i] && out@[j] == prev[j]);
                    } else {
                        assert(out@[i] == prev[i]);
                        if k > 0 {
                            assert(yx_le(sorted@[k - 1], sorted@[k as int]));
                        }
                    }
                }
                assert forall|i: int| 0 <= i < out@.len() implies (#[trigger] out@[i]).page_number < page_number || (k + 1 > 0
                    && yx_le(out@[i], sorted@[k as int])) by {
                    if i < prev.len() {
                        assert(out@[i] == prev[i]);
                        if k > 0 && prev[i].page_number >= page_number {
                            assert(yx_le(sorted@[k - 1], sorted@[k as int]));
                        }
                    }
                }
            }
            k = k + 1;
        }
        assert(pg.take(p + 1).drop_last() =~= pg.take(p as int));
        assert(pg.take(p + 1).last() == pg[p as int]);
        assert(ps.take(ps.len() as int) =~= ps);
        assert(paragraph == doc_paras(pg.take(p + 1)));
        p = p + 1;
    }
    assert(pg.take(pg.len() as int) =~= pg);
    out
}

/// The sections of an outline, if any.
pub open spec fn outline_sections(o: Option<BookmarkData>) -> Seq<BookmarkSection> {
    match o {
        Some(b) => b.sections@,
        None => seq![],
    }
}

/// The style table of a document.
#[derive(Debug, Clone)]
pub struct StyleData {
    pub font_classes: Vec<FontClass>,
}

/// Everything read from one XHTML document.
#[derive(Debug, Clone)]
pub struct PreprocessorOutput {
    pub text_elements: Vec<PdfTextElement>,
    pub metadata: DocumentMetadata,
    pub style_data: StyleData,
    pub bookmark_data: Option<BookmarkData>,
}

/// Reads an XHTML document: metadata, style table, outline, then the text
/// elements (resolved against the table, matched against the outline).
pub fn parse_xhtml(xhtml: &str) -> (r: PreprocessorOutput)
    ensures
        metadata_of(xhtml@, r.metadata),
        r.style_data.font_classes@.len() == style_rules(xhtml@).len(),
        forall|i: int| 0 <= i < r.style_data.font_classes@.len() ==> class_from(#[trigger] r.style_data.font_classes@[i], style_rules(xhtml@)[i]),
        text_elements_post(xhtml@, r.style_data.font_classes@, outline_sections(r.bookmark_data), r.text_elements@),
{
    let metadata = extract_enhanced_metadata(xhtml);
    let table = extract_style_data(xhtml);
    let bookmark_data = extract_bookmark_data(xhtml);
    let empty: Vec<BookmarkSection> = Vec::new();
    let text_elements = match &bookmark_data {
        Some(b) => extract_text_elements(xhtml, &table, &b.sections),
        None => extract_text_elements(xhtml, &table, &empty),
    };
    PreprocessorOutput { text_elements, metadata, style_data: StyleData { font_classes: table }, bookmark_data }
}

} // verus!
