//! Section promotion and contextual hierarchy assignment.
use vstd::prelude::*;
use crate::config::SectionAndHierarchyConfig;
use crate::fonts::FontSizeAnalysis;
use crate::graph::{level_ok_at, levels_ok, stack_at};
use crate::text::{trim_spec, trim_text};
use crate::types::{ParsedElementType, ParsedPdfElement, spec_is_bold};
use crate::xhtml::{captures_all, regex_groups};
use vstd::string::StrSliceExecFns;
use vstd::utf8::encode_utf8;

verus! {

/// `a` and `b` differ by less than `tol`.
pub open spec fn within(a: u32, b: u32, tol: u32) -> bool {
    (if a >= b { a - b } else { b - a }) < tol
}

/// The deepest slot below `k` whose size is within tolerance of `size`, or -1.
pub open spec fn deepest_match(sizes: Seq<u32>, size: u32, tol: u32, k: int) -> int
    decreases k,
{
    if k <= 0 {
        -1
    } else if within(sizes[k - 1], size, tol) {
        k - 1
    } else {
        deepest_match(sizes, size, tol, k - 1)
    }
}

/// The deepest slot below `k` whose size is smaller than `size`, or -1.
pub open spec fn deepest_smaller(sizes: Seq<u32>, size: u32, k: int) -> int
    decreases k,
{
    if k <= 0 {
        -1
    } else if sizes[k - 1] < size {
        k - 1
    } else {
        deepest_smaller(sizes, size, k - 1)
    }
}

/// The slot a larger heading settles in: the deepest one of about its size,
/// else the deepest one of a smaller size, else the top slot.
pub open spec fn settle_slot(sizes: Seq<u32>, size: u32, tol: u32) -> int {
    let a = deepest_match(sizes, size, tol, sizes.len() as int);
    if a >= 0 {
        a
    } else {
        let b = deepest_smaller(sizes, size, sizes.len() as int);
        if b >= 0 {
            b
        } else {
            0
        }
    }
}

/// The font sizes of the open levels after a section heading of size `size`;
/// the heading's level is the length of the result.
pub open spec fn section_step(sizes: Seq<u32>, size: u32, cfg: SectionAndHierarchyConfig) -> Seq<u32> {
    if sizes.len() == 0 {
        Seq::new(cfg.starting_section_level as nat, |i: int| size)
    } else {
        let cur = sizes.len() as int;
        let top = sizes.last();
        if within(size, top, cfg.font_size_tolerance) {
            sizes.update(cur - 1, size)
        } else if size < top {
            if cfg.enforce_max_depth && cur + 1 > cfg.max_depth {
                sizes.update(cur - 1, size)
            } else {
                sizes.push(size)
            }
        } else {
            sizes.subrange(0, settle_slot(sizes, size, cfg.font_size_tolerance)).push(size)
        }
    }
}

/// The open levels of a document, by the font size of the heading that
/// opened each one.
pub struct HierarchyContext {
    pub level_font_sizes: Vec<u32>,
}

impl HierarchyContext {
    pub open spec fn view(&self) -> Seq<u32> {
        self.level_font_sizes@
    }

    /// No section seen yet.
    pub fn new() -> (r: HierarchyContext)
        ensures
            r.view().len() == 0,
    {
        HierarchyContext { level_font_sizes: Vec::new() }
    }

    /// Records a section heading of size `font_size` and returns its level.
    pub fn update_for_section(&mut self, font_size: u32, cfg: &SectionAndHierarchyConfig) -> (r: u32)
        requires
            cfg.wf(),
            old(self).view().len() < 0x7fff_ffff,
        ensures
            final(self).view() == section_step(old(self).view(), font_size, *cfg),
            r == final(self).view().len(),
            r >= 1,
            old(self).view().len() == 0 ==> r == cfg.starting_section_level,
            old(self).view().len() > 0 ==> r <= old(self).view().len() + 1,
            cfg.enforce_max_depth && cfg.starting_section_level <= cfg.max_depth && old(self).view().len() <= cfg.max_depth
                ==> r <= cfg.max_depth,
    {
        proof {
            lemma_step_len(self.view(), font_size, *cfg);
        }
        let cur = self.level_font_sizes.len();
        let tol = cfg.font_size_tolerance;
        if cur == 0 {
            let mut i: u32 = 0;
            while i < cfg.starting_section_level
                invariant
                    i <= cfg.starting_section_level,
                    self.view() =~= Seq::new(i as nat, |k: int| font_size),
                decreases cfg.starting_section_level - i,
            {
                self.level_font_sizes.push(font_size);
                i = i + 1;
            }
            return cfg.starting_section_level;
        }
        let top = self.level_font_sizes[cur - 1];
        let diff = if font_size >= top { font_size - top } else { top - font_size };
        if diff < tol {
            self.level_font_sizes.set(cur - 1, font_size);
        } else if font_size < top {
            if cfg.enforce_max_depth && cur + 1 > cfg.max_depth as usize {
                self.level_font_sizes.set(cur - 1, font_size);
            } else {
                self.level_font_sizes.push(font_size);
            }
        } else {
            let j = self.find_appropriate_level_for_font_size(font_size, tol);
            self.level_font_sizes.truncate(j);
            self.level_font_sizes.push(font_size);
        }
        self.level_font_sizes.len() as u32
    }

    /// The slot a larger heading settles in.
    fn find_appropriate_level_for_font_size(&self, font_size: u32, tol: u32) -> (r: usize)
        requires
            self.view().len() > 0,
        ensures
            r == settle_slot(self.view(), font_size, tol),
            r < self.view().len(),
    {
        let n = self.level_font_sizes.len();
        let mut k: usize = n;
        while k > 0
            invariant
                k <= n == self.view().len(),
                deepest_match(self.view(), font_size, tol, n as int) == deepest_match(
                    self.view(),
                    font_size,
                    tol,
                    k as int,
                ),
            decreases k,
        {
            let s = self.level_font_sizes[k - 1];
            let diff = if s >= font_size { s - font_size } else { font_size - s };
            if diff < tol {
                return k - 1;
            }
            k = k - 1;
        }
        let mut k: usize = n;
        while k > 0
            invariant
                k <= n == self.view().len(),
                deepest_match(self.view(), font_size, tol, n as int) == -1,
                deepest_smaller(self.view(), font_size, n as int) == deepest_smaller(
                    self.view(),
                    font_size,
                    k as int,
                ),
            decreases k,
        {
            if self.level_font_sizes[k - 1] < font_size {
                return k - 1;
            }
            k = k - 1;
        }
        0
    }

    /// The level of content under the innermost open section (1 when no
    /// section is open).
    pub fn get_content_level(&self) -> (r: u32)
        requires
            self.view().len() < 0x7fff_ffff,
        ensures
            r == self.view().len() + 1,
    {
        (self.level_font_sizes.len() + 1) as u32
    }
}

/// The heading test: large enough, set apart by size or weight, and long
/// enough to be a heading.
pub open spec fn spec_is_section(
    e: ParsedPdfElement,
    a: FontSizeAnalysis,
    cfg: SectionAndHierarchyConfig,
) -> bool {
    let f = e.style_info;
    let size = f.font_size;
    let bold = spec_is_bold(f);
    let potential = a.potential_header_sizes@.contains(size);
    let bold_logic = if cfg.bold_size_strict {
        cfg.use_bold_indicator && bold && size > a.body_text_size
    } else {
        cfg.use_bold_indicator && bold
    };
    let len = encode_utf8(trim_spec(e.text@)).len() as usize;
    &&& size >= cfg.min_header_size
    &&& (potential || size > a.body_text_size || bold_logic)
    &&& len >= 3
    &&& (len >= 8 || bold || potential)
}

/// Whether the element is promoted to a section.
pub fn is_section(e: &ParsedPdfElement, a: &FontSizeAnalysis, cfg: &SectionAndHierarchyConfig) -> (r: bool)
    ensures
        r == spec_is_section(*e, *a, *cfg),
{
    let size = e.style_info.font_size;
    if size < cfg.min_header_size {
        return false;
    }
    let bold = e.style_info.is_bold();
    let potential = a.is_potential_header_size(size);
    let bold_logic = if cfg.bold_size_strict {
        cfg.use_bold_indicator && bold && size > a.body_text_size
    } else {
        cfg.use_bold_indicator && bold
    };
    if !(potential || size > a.body_text_size || bold_logic) {
        return false;
    }
    let trimmed = trim_text(e.text.as_str());
    let len = trimmed.as_str().len();
    len >= 3 && (len >= 8 || bold || potential)
}

/// The open levels before element `n` is classified.
pub open spec fn sizes_at(
    elems: Seq<ParsedPdfElement>,
    a: FontSizeAnalysis,
    cfg: SectionAndHierarchyConfig,
    n: nat,
) -> Seq<u32>
    decreases n,
{
    if n == 0 {
        Seq::empty()
    } else {
        let s = sizes_at(elems, a, cfg, (n - 1) as nat);
        let e = elems[n - 1];
        if spec_is_section(e, a, cfg) {
            section_step(s, e.style_info.font_size, cfg)
        } else {
            s
        }
    }
}

/// The kind an element keeps when it is not a section.
pub open spec fn kept_kind(t: ParsedElementType) -> ParsedElementType {
    if t == ParsedElementType::Section {
        ParsedElementType::Paragraph
    } else {
        t
    }
}

/// `b` is `a` with only kind and level changed.
pub open spec fn same_but_class(a: ParsedPdfElement, b: ParsedPdfElement) -> bool {
    &&& b.text == a.text
    &&& b.position == a.position
    &&& b.style_info == a.style_info
    &&& b.bounding_box == a.bounding_box
    &&& b.page_number == a.page_number
    &&& b.paragraph_number == a.paragraph_number
    &&& b.reading_order == a.reading_order
    &&& b.bookmark_match == a.bookmark_match
    &&& b.token_count == a.token_count
}

/// What section detection makes of element `n`.
pub open spec fn classified(
    elems: Seq<ParsedPdfElement>,
    a: FontSizeAnalysis,
    cfg: SectionAndHierarchyConfig,
    n: int,
    out: ParsedPdfElement,
) -> bool {
    let e = elems[n];
    let before = sizes_at(elems, a, cfg, n as nat);
    &&& same_but_class(e, out)
    &&& if spec_is_section(e, a, cfg) {
        &&& out.element_type == ParsedElementType::Section
        &&& out.hierarchy_level == sizes_at(elems, a, cfg, (n + 1) as nat).len()
    } else {
        &&& out.element_type == kept_kind(e.element_type)
        &&& out.hierarchy_level == before.len() + 1
    }
}

proof fn lemma_step_len(s: Seq<u32>, size: u32, cfg: SectionAndHierarchyConfig)
    requires
        cfg.wf(),
    ensures
        1 <= section_step(s, size, cfg).len(),
        s.len() == 0 ==> section_step(s, size, cfg).len() == cfg.starting_section_level,
        s.len() > 0 ==> section_step(s, size, cfg).len() <= s.len() + 1,
        s.len() > 0 && cfg.enforce_max_depth && s.len() <= cfg.max_depth ==> section_step(
            s,
            size,
            cfg,
        ).len() <= cfg.max_depth,
{
    if s.len() > 0 {
        lemma_settle_bound(s, size, cfg.font_size_tolerance);
    }
}

proof fn lemma_settle_bound(s: Seq<u32>, size: u32, tol: u32)
    requires
        s.len() > 0,
    ensures
        0 <= settle_slot(s, size, tol) < s.len(),
{
    lemma_deepest_match_bound(s, size, tol, s.len() as int);
    lemma_deepest_smaller_bound(s, size, s.len() as int);
}

proof fn lemma_deepest_match_bound(s: Seq<u32>, size: u32, tol: u32, k: int)
    ensures
        -1 <= deepest_match(s, size, tol, k) < if k > 0 { k } else { 0 },
    decreases k,
{
    if k > 0 {
        lemma_deepest_match_bound(s, size, tol, k - 1);
    }
}

proof fn lemma_deepest_smaller_bound(s: Seq<u32>, size: u32, k: int)
    ensures
        -1 <= deepest_smaller(s, size, k) < if k > 0 { k } else { 0 },
    decreases k,
{
    if k > 0 {
        lemma_deepest_smaller_bound(s, size, k - 1);
    }
}

proof fn lemma_sizes_bound(
    elems: Seq<ParsedPdfElement>,
    a: FontSizeAnalysis,
    cfg: SectionAndHierarchyConfig,
    n: nat,
)
    requires
        cfg.wf(),
    ensures
        sizes_at(elems, a, cfg, n).len() <= n + 0x3fff_ffff,
    decreases n,
{
    if n > 0 {
        lemma_sizes_bound(elems, a, cfg, (n - 1) as nat);
        lemma_step_len(sizes_at(elems, a, cfg, (n - 1) as nat), elems[n - 1].style_info.font_size, cfg);
    }
}

/// Promotes headings to sections and gives every element its level in
/// context: a section the level its size calls for among the open levels,
/// anything else one below the innermost open section.
#[verifier::rlimit(60)]
pub fn detect_sections(
    elements: &Vec<ParsedPdfElement>,
    a: &FontSizeAnalysis,
    cfg: &SectionAndHierarchyConfig,
) -> (r: Vec<ParsedPdfElement>)
    requires
        cfg.wf(),
        elements@.len() < 0x3fff_ffff,
    ensures
        r@.len() == elements@.len(),
        forall|n: int| 0 <= n < elements@.len() ==> #[trigger] classified(elements@, *a, *cfg, n, r@[n]),
{
    let ghost elems = elements@;
    let mut ctx = HierarchyContext::new();
    let mut out: Vec<ParsedPdfElement> = Vec::new();
    let mut n: usize = 0;
    while n < elements.len()
        invariant
            elems == elements@,
            cfg.wf(),
            elems.len() < 0x3fff_ffff,
            n <= elems.len(),
            ctx.view() == sizes_at(elems, *a, *cfg, n as nat),
            out@.len() == n,
            forall|m: int| 0 <= m < n ==> #[trigger] classified(elems, *a, *cfg, m, out@[m]),
        decreases elems.len() - n,
    {
        proof {
            lemma_sizes_bound(elems, *a, *cfg, n as nat);
        }
        let e = &elements[n];
        let mut x = e.copied();
        if is_section(e, a, cfg) {
            let level = ctx.update_for_section(e.style_info.font_size, cfg);
            x.element_type = ParsedElementType::Section;
            x.hierarchy_level = level;
        } else {
            if x.element_type == ParsedElementType::Section {
                x.element_type = ParsedElementType::Paragraph;
            }
            x.hierarchy_level = ctx.get_content_level();
        }
        out.push(x);
        n = n + 1;
    }
    out
}

/// With depth enforced and a starting level within the limit, no section
/// is placed deeper than the limit, and no other element deeper than one
/// below it.
pub proof fn lemma_max_depth_respected(
    elems: Seq<ParsedPdfElement>,
    a: FontSizeAnalysis,
    cfg: SectionAndHierarchyConfig,
    out: Seq<ParsedPdfElement>,
)
    requires
        cfg.wf(),
        cfg.enforce_max_depth,
        cfg.starting_section_level <= cfg.max_depth,
        out.len() == elems.len(),
        forall|n: int| 0 <= n < elems.len() ==> #[trigger] classified(elems, a, cfg, n, out[n]),
    ensures
        forall|n: int|
            0 <= n < out.len() ==> (#[trigger] out[n]).hierarchy_level <= cfg.max_depth + 1,
        forall|n: int|
            0 <= n < out.len() && (#[trigger] out[n]).element_type == ParsedElementType::Section
                ==> out[n].hierarchy_level <= cfg.max_depth,
{
    assert forall|n: int| 0 <= n < out.len() implies (#[trigger] out[n]).hierarchy_level <= cfg.max_depth + 1
        && (out[n].element_type == ParsedElementType::Section ==> out[n].hierarchy_level <= cfg.max_depth) by {
        assert(classified(elems, a, cfg, n, out[n]));
        lemma_sizes_within_depth(elems, a, cfg, n as nat);
        lemma_sizes_within_depth(elems, a, cfg, (n + 1) as nat);
    }
}

proof fn lemma_sizes_within_depth(
    elems: Seq<ParsedPdfElement>,
    a: FontSizeAnalysis,
    cfg: SectionAndHierarchyConfig,
    n: nat,
)
    requires
        cfg.wf(),
        cfg.enforce_max_depth,
        cfg.starting_section_level <= cfg.max_depth,
    ensures
        sizes_at(elems, a, cfg, n).len() <= cfg.max_depth,
    decreases n,
{
    if n > 0 {
        lemma_sizes_within_depth(elems, a, cfg, (n - 1) as nat);
        lemma_step_len(sizes_at(elems, a, cfg, (n - 1) as nat), elems[n - 1].style_info.font_size, cfg);
    }
}

/// With sections starting at level 1, the levels that section detection
/// assigns always form a tree: every element lies at most one level below
/// the innermost open section, so building the graph cannot fail.
pub proof fn lemma_detected_levels_build(
    elems: Seq<ParsedPdfElement>,
    a: FontSizeAnalysis,
    cfg: SectionAndHierarchyConfig,
    out: Seq<ParsedPdfElement>,
)
    requires
        cfg.wf(),
        cfg.starting_section_level == 1,
        out.len() == elems.len(),
        forall|n: int| 0 <= n < elems.len() ==> #[trigger] classified(elems, a, cfg, n, out[n]),
    ensures
        levels_ok(out),
{
    assert forall|n: int| 0 <= n < out.len() implies #[trigger] level_ok_at(out, n) by {
        lemma_stack_tracks_sizes(elems, a, cfg, out, n as nat);
        lemma_stack_tracks_sizes(elems, a, cfg, out, (n + 1) as nat);
    }
}

proof fn lemma_stack_tracks_sizes(
    elems: Seq<ParsedPdfElement>,
    a: FontSizeAnalysis,
    cfg: SectionAndHierarchyConfig,
    out: Seq<ParsedPdfElement>,
    n: nat,
)
    requires
        cfg.wf(),
        cfg.starting_section_level == 1,
        out.len() == elems.len(),
        n <= elems.len(),
        forall|m: int| 0 <= m < elems.len() ==> #[trigger] classified(elems, a, cfg, m, out[m]),
    ensures
        stack_at(out, n).len() == sizes_at(elems, a, cfg, n).len() + 1,
        n > 0 ==> level_ok_at(out, n - 1),
    decreases n,
{
    if n > 0 {
        let m = (n - 1) as nat;
        lemma_stack_tracks_sizes(elems, a, cfg, out, m);
        assert(classified(elems, a, cfg, m as int, out[m as int]));
        let before = sizes_at(elems, a, cfg, m);
        lemma_step_len(before, elems[m as int].style_info.font_size, cfg);
    }
}

/// Some configured pattern matches the text.
pub open spec fn matches_pattern(patterns: Seq<Seq<char>>, text: Seq<char>) -> bool {
    exists|k: int| 0 <= k < patterns.len() && regex_groups(#[trigger] patterns[k], text).len() > 0
}

/// A paragraph is promoted by pattern when a pattern matches its text and,
/// if font constraints are respected, it is large enough or (with the bold
/// indicator on) bold.
pub open spec fn spec_pattern_section(e: ParsedPdfElement, cfg: SectionAndHierarchyConfig) -> bool {
    &&& e.element_type == ParsedElementType::Paragraph
    &&& matches_pattern(cfg.pattern_detection.patterns.deep_view(), e.text@)
    &&& (!cfg.pattern_detection.respect_font_constraints || e.style_info.font_size >= cfg.min_header_size
        || (cfg.use_bold_indicator && spec_is_bold(e.style_info)))
}

fn pattern_matches(patterns: &Vec<String>, text: &str) -> (r: bool)
    ensures
        r == matches_pattern(patterns.deep_view(), text@),
{
    let mut k: usize = 0;
    while k < patterns.len()
        invariant
            k <= patterns@.len(),
            forall|j: int| 0 <= j < k ==> regex_groups(#[trigger] patterns.deep_view()[j], text@).len() == 0,
        decreases patterns@.len() - k,
    {
        if captures_all(patterns[k].as_str(), text).len() > 0 {
            assert(patterns.deep_view()[k as int] == patterns@[k as int]@);
            return true;
        }
        assert(patterns.deep_view()[k as int] == patterns@[k as int]@);
        k = k + 1;
    }
    false
}

/// `out` is `inp` with the paragraphs that the patterns pick promoted to
/// sections, at their level.
pub open spec fn pattern_rel(inp: Seq<ParsedPdfElement>, cfg: SectionAndHierarchyConfig, out: Seq<ParsedPdfElement>) -> bool {
    &&& out.len() == inp.len()
    &&& forall|n: int| 0 <= n < out.len() ==> {
        let e = inp[n];
        let o = #[trigger] out[n];
        &&& same_but_class(e, o)
        &&& o.hierarchy_level == e.hierarchy_level
        &&& o.element_type == if cfg.pattern_detection.enabled && spec_pattern_section(e, cfg) {
            ParsedElementType::Section
        } else {
            e.element_type
        }
    }
}

/// Promotes paragraphs that match a configured pattern to sections, at
/// their level; with detection off the elements are returned as they are.
#[verifier::rlimit(60)]
pub fn detect_pattern_sections(elements: &Vec<ParsedPdfElement>, cfg: &SectionAndHierarchyConfig) -> (r: Vec<ParsedPdfElement>)
    ensures
        pattern_rel(elements@, *cfg, r@),
{
    let mut out: Vec<ParsedPdfElement> = Vec::new();
    let mut i: usize = 0;
    while i < elements.len()
        invariant
            i <= elements@.len(),
            out@.len() == i,
            forall|n: int| 0 <= n < i ==> {
                let e = elements@[n];
                let o = #[trigger] out@[n];
                &&& same_but_class(e, o)
                &&& o.hierarchy_level == e.hierarchy_level
                &&& o.element_type == if cfg.pattern_detection.enabled && spec_pattern_section(e, *cfg) {
                    ParsedElementType::Section
                } else {
                    e.element_type
                }
            },
        decreases elements@.len() - i,
    {
        let e = &elements[i];
        let mut x = e.copied();
        if cfg.pattern_detection.enabled && e.element_type == ParsedElementType::Paragraph
            && pattern_matches(&cfg.pattern_detection.patterns, e.text.as_str())
            && (!cfg.pattern_detection.respect_font_constraints || e.style_info.font_size >= cfg.min_header_size
                || (cfg.use_bold_indicator && e.style_info.is_bold())) {
            x.element_type = ParsedElementType::Section;
        }
        out.push(x);
        i = i + 1;
    }
    out
}

/// When no element qualifies as a heading, section detection leaves every
/// element at level 1 and none of them a section, so the graph is the root
/// with its paragraphs directly under it.
pub proof fn lemma_no_headings_flat(
    elems: Seq<ParsedPdfElement>,
    a: FontSizeAnalysis,
    cfg: SectionAndHierarchyConfig,
    out: Seq<ParsedPdfElement>,
)
    requires
        out.len() == elems.len(),
        forall|n: int| 0 <= n < elems.len() ==> #[trigger] classified(elems, a, cfg, n, out[n]),
        forall|n: int| 0 <= n < elems.len() ==> !spec_is_section(#[trigger] elems[n], a, cfg),
    ensures
        forall|n: int| 0 <= n < out.len() ==> (#[trigger] out[n]).hierarchy_level == 1
            && out[n].element_type != ParsedElementType::Section,
{
    assert forall|n: int| 0 <= n < out.len() implies (#[trigger] out[n]).hierarchy_level == 1
        && out[n].element_type != ParsedElementType::Section by {
        assert(classified(elems, a, cfg, n, out[n]));
        assert(!spec_is_section(elems[n], a, cfg));
        lemma_no_headings_sizes(elems, a, cfg, n as nat);
    }
}

proof fn lemma_no_headings_sizes(
    elems: Seq<ParsedPdfElement>,
    a: FontSizeAnalysis,
    cfg: SectionAndHierarchyConfig,
    n: nat,
)
    requires
        n <= elems.len(),
        forall|m: int| 0 <= m < elems.len() ==> !spec_is_section(#[trigger] elems[m], a, cfg),
    ensures
        sizes_at(elems, a, cfg, n).len() == 0,
    decreases n,
{
    if n > 0 {
        lemma_no_headings_sizes(elems, a, cfg, (n - 1) as nat);
        assert(!spec_is_section(elems[n - 1], a, cfg));
    }
}

} // verus!
