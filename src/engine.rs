//! The rule engine: base conversion of text elements, then the configured
//! passes in order.
use vstd::prelude::*;
use crate::clustering::{boxes_wf, cluster_adjacent, cluster_paragraphs, first_keys, group_order, is_merger, runs, sorted_group, token_sum};
use crate::config::{ParsingConfig, RuleConfig, SpatialClusteringConfig};
use crate::enforcer::{split_element, split_post, SizeEnforcerConfig};
use crate::fonts::{analyze_font_sizes, sizes_of, FontSizeAnalysis};
use crate::sections::{classified, detect_pattern_sections, detect_sections, pattern_rel};
use crate::text::{str_eq, trim_spec, trim_text};
use crate::types::{copy_bookmark, ParsedElementType, ParsedPdfElement, PdfTextElement};
use crate::validation::{issues_upto, validate_structure, ValidationReport};
use vstd::string::StrSliceExecFns;

verus! {

/// More elements than any pass is sized for.
pub const MAX_ELEMENTS: usize = 0x3fff_fffe;

/// Why the pipeline could not run.
#[derive(Debug, Clone, Copy, PartialEq, Eq, Structural)]
pub enum PipelineError {
    /// The token counts of the elements do not fit in a machine word.
    TokenOverflow,
    /// There are `MAX_ELEMENTS` elements or more.
    TooManyElements,
    /// A box holds a coordinate outside the representable range.
    BoxOutOfRange,
}

/// Tracing switches of the pipeline.
#[derive(Debug, Clone)]
pub struct DebugConfig {
    pub enabled: bool,
    pub filter_patterns: Vec<String>,
}

impl DebugConfig {
    pub fn new(enabled: bool, filter_patterns: Vec<String>) -> (r: DebugConfig)
        ensures
            r.enabled == enabled,
            r.filter_patterns == filter_patterns,
    {
        DebugConfig { enabled, filter_patterns }
    }

    pub fn disabled() -> (r: DebugConfig)
        ensures
            !r.enabled,
            r.filter_patterns@.len() == 0,
    {
        DebugConfig { enabled: false, filter_patterns: Vec::new() }
    }
}

/// The texts of the text elements that are not blank, in order.
pub open spec fn non_blank(t: Seq<PdfTextElement>) -> Seq<int>
    decreases t.len(),
{
    if t.len() == 0 {
        Seq::empty()
    } else {
        let k = non_blank(t.drop_last());
        if trim_spec(t.last().text@).len() > 0 {
            k.push(t.len() - 1)
        } else {
            k
        }
    }
}

/// `p` is the base conversion of text element `t` found at `position`.
pub open spec fn base_of(t: PdfTextElement, position: int, p: ParsedPdfElement) -> bool {
    &&& p.element_type == ParsedElementType::Paragraph
    &&& p.text@ == trim_spec(t.text@)
    &&& p.hierarchy_level == 1
    &&& p.position == position
    &&& p.style_info == t.style_info
    &&& p.bounding_box == t.bounding_box
    &&& p.page_number == t.page_number
    &&& p.paragraph_number == t.paragraph_number
    &&& p.reading_order == t.reading_order
    &&& p.bookmark_match == t.bookmark_match
    &&& p.token_count == t.token_count
}

/// Whether the pipeline is bypassed under `config` and `over`.
pub open spec fn spec_minimal(config: ParsingConfig, over: Option<bool>) -> bool {
    match over {
        Some(b) => b,
        None => config.minimal_parse,
    }
}

/// Every element is a level-1 paragraph.
pub open spec fn all_level_one_paragraphs(s: Seq<ParsedPdfElement>) -> bool {
    forall|n: int| 0 <= n < s.len() ==> (#[trigger] s[n]).hierarchy_level == 1
        && s[n].element_type == ParsedElementType::Paragraph
}

/// Runs the configured passes over text elements.
pub struct RuleEngine {
    pub config: ParsingConfig,
    pub debug_config: DebugConfig,
    pub minimal_parse_override: Option<bool>,
}

impl RuleEngine {
    pub fn new(config: ParsingConfig) -> (r: RuleEngine)
        ensures
            r.config == config,
            r.minimal_parse_override is None,
    {
        RuleEngine { config, debug_config: DebugConfig::disabled(), minimal_parse_override: None }
    }

    pub fn set_debug_config(&mut self, debug_config: DebugConfig)
        ensures
            final(self).debug_config == debug_config,
            final(self).config == old(self).config,
            final(self).minimal_parse_override == old(self).minimal_parse_override,
    {
        self.debug_config = debug_config;
    }

    pub fn set_minimal_parse_override(&mut self, minimal_parse: bool)
        ensures
            final(self).minimal_parse_override == Some(minimal_parse),
            final(self).config == old(self).config,
    {
        self.minimal_parse_override = Some(minimal_parse);
    }

    /// The configuration that keys the cache.
    pub fn get_config_for_cache(&self) -> (r: &ParsingConfig)
        ensures
            *r == self.config,
    {
        &self.config
    }

    /// One level-1 paragraph per non-blank text element, its text trimmed,
    /// its position the element's index.
#[verifier::rlimit(60)]
    pub fn convert_text_elements_to_parsed(&self, text_elements: &Vec<PdfTextElement>) -> (r: Vec<ParsedPdfElement>)
        ensures
            r@.len() == non_blank(text_elements@).len(),
            forall|k: int| 0 <= k < r@.len() ==> base_of(text_elements@[non_blank(text_elements@)[k]], non_blank(text_elements@)[k], #[trigger] r@[k]),
            all_level_one_paragraphs(r@),
    {
        let ghost t = text_elements@;
        let mut out: Vec<ParsedPdfElement> = Vec::new();
        let mut i: usize = 0;
        while i < text_elements.len()
            invariant
                t == text_elements@,
                i <= t.len(),
                out@.len() == non_blank(t.take(i as int)).len(),
                forall|k: int| 0 <= k < out@.len() ==> base_of(t[non_blank(t.take(i as int))[k]], non_blank(t.take(i as int))[k], #[trigger] out@[k]),
                all_level_one_paragraphs(out@),
            decreases t.len() - i,
        {
            assert(t.take(i + 1).drop_last() =~= t.take(i as int));
            let ghost before = non_blank(t.take(i as int));
            proof {
                lemma_non_blank_bound(t.take(i as int));
            }
            let e = &text_elements[i];
            let text = trim_text(e.text.as_str());
            if text.as_str().unicode_len() > 0 {
                out.push(ParsedPdfElement {
                    element_type: ParsedElementType::Paragraph,
                    text,
                    hierarchy_level: 1,
                    position: i,
                    style_info: e.style_info.copied(),
                    bounding_box: e.bounding_box,
                    page_number: e.page_number,
                    paragraph_number: e.paragraph_number,
                    reading_order: e.reading_order,
                    bookmark_match: copy_bookmark(&e.bookmark_match),
                    token_count: e.token_count,
                });
                proof {
                    let after = non_blank(t.take(i + 1));
                    assert(after == before.push(i as int));
                    assert forall|k: int| 0 <= k < out@.len() implies base_of(t[after[k]], after[k], #[trigger] out@[k]) by {
                        if k < before.len() {
                            assert(after[k] == before[k]);
                        }
                    }
                }
            }
            i = i + 1;
        }
        assert(t.take(t.len() as int) =~= t);
        out
    }

    /// Font statistics of the elements.
    pub fn analyze_font_sizes(&self, elements: &Vec<ParsedPdfElement>) -> (r: FontSizeAnalysis)
        ensures
            r.describes(crate::fonts::sizes_of(elements@)),
    {
        analyze_font_sizes(elements)
    }

    /// Base conversion, then (unless minimal parse is on) the configured
    /// passes.
    pub fn apply_rules(&self, text_elements: &Vec<PdfTextElement>) -> (r: Result<Vec<ParsedPdfElement>, PipelineError>)
        requires
            self.config.wf(),
        ensures
            rules_post(text_elements@, self.config, spec_minimal(self.config, self.minimal_parse_override), r),
    {
        let elements = self.convert_text_elements_to_parsed(text_elements);
        assert(base_conversion(text_elements@, elements@));
        let minimal = match self.minimal_parse_override {
            Some(b) => b,
            None => self.config.minimal_parse,
        };
        if minimal {
            return Ok(elements);
        }
        run_passes(elements, &self.config)
    }

    /// Base conversion, then the passes of `config` (minimal parse as
    /// `config` says).
    pub fn apply_rules_with_config(&self, text_elements: &Vec<PdfTextElement>, config: &ParsingConfig) -> (r: Result<Vec<ParsedPdfElement>, PipelineError>)
        requires
            config.wf(),
        ensures
            rules_post(text_elements@, *config, config.minimal_parse, r),
    {
        let elements = self.convert_text_elements_to_parsed(text_elements);
        assert(base_conversion(text_elements@, elements@));
        if config.minimal_parse {
            return Ok(elements);
        }
        run_passes(elements, config)
    }
}

/// `b` is the base conversion of the text elements `t`.
pub open spec fn base_conversion(t: Seq<PdfTextElement>, b: Seq<ParsedPdfElement>) -> bool {
    &&& b.len() == non_blank(t).len()
    &&& forall|k: int| 0 <= k < b.len() ==> base_of(t[non_blank(t)[k]], non_blank(t)[k], #[trigger] b[k])
}

/// What applying the rules to `t` returns: the base conversion, run
/// through the enabled passes unless minimal parse is on.
pub open spec fn rules_post(t: Seq<PdfTextElement>, config: ParsingConfig, minimal: bool, r: Result<Vec<ParsedPdfElement>, PipelineError>) -> bool {
    exists|b: Seq<ParsedPdfElement>| #[trigger] base_conversion(t, b) && if minimal {
        r is Ok && r->Ok_0@ == b
    } else {
        passes_post(b, config, r)
    }
}

proof fn lemma_non_blank_bound(t: Seq<PdfTextElement>)
    ensures
        forall|k: int| 0 <= k < non_blank(t).len() ==> 0 <= #[trigger] non_blank(t)[k] < t.len(),
    decreases t.len(),
{
    if t.len() > 0 {
        lemma_non_blank_bound(t.drop_last());
        let k = non_blank(t.drop_last());
        assert forall|j: int| 0 <= j < non_blank(t).len() implies 0 <= #[trigger] non_blank(t)[j] < t.len() by {
            if j < k.len() {
                assert(non_blank(t)[j] == k[j]);
            }
        }
    }
}

/// The token total of the elements, or `None` when it overflows.
pub fn total_tokens(elements: &Vec<ParsedPdfElement>) -> (r: Option<usize>)
    ensures
        r matches Some(v) ==> v == token_sum(elements@),
        r is None ==> token_sum(elements@) > usize::MAX,
{
    let ghost s = elements@;
    let mut total: usize = 0;
    let mut i: usize = 0;
    while i < elements.len()
        invariant
            s == elements@,
            i <= s.len(),
            total == token_sum(s.take(i as int)),
        decreases s.len() - i,
    {
        assert(s.take(i + 1).drop_last() =~= s.take(i as int));
        let t = elements[i].token_count;
        if t > usize::MAX - total {
            proof {
                lemma_token_sum_prefix(s, i + 1);
            }
            return None;
        }
        total = total + t;
        i = i + 1;
    }
    assert(s.take(s.len() as int) =~= s);
    Some(total)
}

proof fn lemma_token_sum_prefix(s: Seq<ParsedPdfElement>, i: int)
    requires
        0 <= i <= s.len(),
    ensures
        token_sum(s.take(i)) <= token_sum(s),
    decreases s.len() - i,
{
    if i < s.len() {
        lemma_token_sum_prefix(s, i + 1);
        assert(s.take(i + 1).drop_last() =~= s.take(i));
    } else {
        assert(s.take(i) =~= s);
    }
}

/// Whether every box is well formed.
pub fn check_boxes(elements: &Vec<ParsedPdfElement>) -> (r: bool)
    ensures
        r == boxes_wf(elements@),
{
    let mut i: usize = 0;
    while i < elements.len()
        invariant
            i <= elements@.len(),
            forall|k: int| 0 <= k < i ==> (#[trigger] elements@[k]).bounding_box.wf(),
        decreases elements@.len() - i,
    {
        let b = &elements[i].bounding_box;
        let lim = crate::geometry::COORD_LIMIT as i128;
        let x = b.x as i128;
        let y = b.y as i128;
        let r = x + b.width as i128;
        let bt = y + b.height as i128;
        if !(-lim <= x && x <= lim && -lim <= y && y <= lim && -lim <= r && r <= lim && -lim <= bt && bt <= lim) {
            return false;
        }
        i = i + 1;
    }
    true
}

/// The paragraph-merge result `m` of `s` (as `cluster_paragraphs` fixes it).
pub open spec fn merged_paragraphs(s: Seq<ParsedPdfElement>, m: Seq<ParsedPdfElement>) -> bool {
    &&& m.len() == first_keys(s).len()
    &&& forall|t: int| 0 <= t < m.len() ==> is_merger(#[trigger] m[t], sorted_group(s, first_keys(s)[group_order(s)[t].2 as int]))
}

/// Some paragraph of `s` has token counts beyond a machine word.
pub open spec fn merge_overflows(s: Seq<ParsedPdfElement>) -> bool {
    exists|j: int| 0 <= j < first_keys(s).len() && token_sum(sorted_group(s, #[trigger] first_keys(s)[j])) > usize::MAX
}

/// `out` is the adjacency clustering of `s`.
pub open spec fn adjacent_clusters(s: Seq<ParsedPdfElement>, cfg: SpatialClusteringConfig, out: Seq<ParsedPdfElement>) -> bool {
    &&& out.len() == runs(s, cfg, s.len() as nat).len()
    &&& forall|j: int| 0 <= j < out.len() ==> is_merger(#[trigger] out[j], runs(s, cfg, s.len() as nat)[j])
}

/// Each element of `inp` is split into the matching entry of `parts`.
pub open spec fn split_all(inp: Seq<ParsedPdfElement>, cfg: SizeEnforcerConfig, parts: Seq<Seq<ParsedPdfElement>>) -> bool {
    &&& parts.len() == inp.len()
    &&& forall|i: int| 0 <= i < inp.len() ==> split_post(inp[i], cfg, #[trigger] parts[i])
}

/// The parts one after the other.
pub open spec fn flatten(parts: Seq<Seq<ParsedPdfElement>>) -> Seq<ParsedPdfElement>
    decreases parts.len(),
{
    if parts.len() == 0 {
        Seq::empty()
    } else {
        flatten(parts.drop_last()) + parts.last()
    }
}

/// Splits every element that exceeds the size limit.
pub fn enforce_sizes(elements: &Vec<ParsedPdfElement>, cfg: &SizeEnforcerConfig) -> (r: Vec<ParsedPdfElement>)
    requires
        boxes_wf(elements@),
    ensures
        exists|parts: Seq<Seq<ParsedPdfElement>>| #[trigger] split_all(elements@, *cfg, parts) && r@ == flatten(parts),
{
    let mut out: Vec<ParsedPdfElement> = Vec::new();
    let ghost mut parts: Seq<Seq<ParsedPdfElement>> = Seq::empty();
    let mut i: usize = 0;
    while i < elements.len()
        invariant
            boxes_wf(elements@),
            i <= elements@.len(),
            parts.len() == i,
            forall|j: int| 0 <= j < i ==> split_post(elements@[j], *cfg, #[trigger] parts[j]),
            out@ == flatten(parts),
        decreases elements@.len() - i,
    {
        let mut ps = split_element(&elements[i], cfg);
        let ghost piece = ps@;
        out.append(&mut ps);
        proof {
            let np = parts.push(piece);
            assert(np.drop_last() =~= parts);
            assert(flatten(np) == flatten(parts) + piece);
            assert forall|j: int| 0 <= j < i + 1 implies split_post(elements@[j], *cfg, #[trigger] np[j]) by {
                if j < i {
                    assert(np[j] == parts[j]);
                }
            }
            parts = np;
        }
        i = i + 1;
    }
    assert(split_all(elements@, *cfg, parts));
    out
}

/// The elements after paragraph merging (when enabled).
pub open spec fn after_merge(s: Seq<ParsedPdfElement>, cfg: SpatialClusteringConfig, mid: Seq<ParsedPdfElement>) -> bool {
    if cfg.enable_paragraph_merging {
        merged_paragraphs(s, mid)
    } else {
        mid == s
    }
}

/// `out` is what pass `name` makes of `inp`.
pub open spec fn pass_rel(name: Seq<char>, config: ParsingConfig, inp: Seq<ParsedPdfElement>, out: Seq<ParsedPdfElement>) -> bool {
    let sah = config.section_and_hierarchy;
    let sc = config.spatial_clustering;
    if name == "SectionDetection"@ {
        exists|a: FontSizeAnalysis| #[trigger] a.describes(sizes_of(inp)) && out.len() == inp.len()
            && forall|n: int| 0 <= n < inp.len() ==> #[trigger] classified(inp, a, sah, n, out[n])
    } else if name == "PatternBasedSectionDetection"@ {
        pattern_rel(inp, sah, out)
    } else if name == "SpatialClustering"@ {
        exists|mid: Seq<ParsedPdfElement>| #[trigger] after_merge(inp, sc, mid) && if sc.enable_spatial_adjacency {
            adjacent_clusters(mid, sc, out)
        } else {
            out == mid
        }
    } else if name == "SizeEnforcer"@ && config.size_enforcer.enabled {
        exists|parts: Seq<Seq<ParsedPdfElement>>| #[trigger] split_all(inp, config.size_enforcer, parts) && out == flatten(parts)
    } else {
        out == inp
    }
}

/// Pass `name` cannot run on `inp`: too many elements for section
/// detection; for clustering a box out of range or token counts beyond a
/// machine word.
pub open spec fn pass_fails(name: Seq<char>, config: ParsingConfig, inp: Seq<ParsedPdfElement>) -> bool {
    let sc = config.spatial_clustering;
    if name == "SectionDetection"@ {
        inp.len() >= MAX_ELEMENTS
    } else if name == "SpatialClustering"@ {
        ||| !boxes_wf(inp)
        ||| (sc.enable_paragraph_merging && merge_overflows(inp))
        ||| (sc.enable_spatial_adjacency && exists|mid: Seq<ParsedPdfElement>| #[trigger] after_merge(inp, sc, mid) && token_sum(mid) > usize::MAX)
    } else if name == "SizeEnforcer"@ {
        config.size_enforcer.enabled && !boxes_wf(inp)
    } else {
        false
    }
}

/// The error a failing pass reports.
pub open spec fn pass_error(name: Seq<char>, config: ParsingConfig, inp: Seq<ParsedPdfElement>) -> PipelineError {
    if name == "SectionDetection"@ {
        PipelineError::TooManyElements
    } else if !boxes_wf(inp) {
        PipelineError::BoxOutOfRange
    } else {
        PipelineError::TokenOverflow
    }
}

proof fn lemma_pass_names_distinct()
    ensures
        "SectionDetection"@ != "SpatialClustering"@,
        "SectionDetection"@ != "PatternBasedSectionDetection"@,
        "SectionDetection"@ != "Validation"@,
        "SpatialClustering"@ != "PatternBasedSectionDetection"@,
        "SpatialClustering"@ != "Validation"@,
        "PatternBasedSectionDetection"@ != "Validation"@,
        "SizeEnforcer"@ != "SectionDetection"@,
        "SizeEnforcer"@ != "SpatialClustering"@,
        "SizeEnforcer"@ != "PatternBasedSectionDetection"@,
        "SizeEnforcer"@ != "Validation"@,
{
    reveal_strlit("SizeEnforcer");
    assert("SizeEnforcer"@.len() == 12);
    reveal_strlit("SectionDetection");
    reveal_strlit("SpatialClustering");
    reveal_strlit("PatternBasedSectionDetection");
    reveal_strlit("Validation");
    assert("SectionDetection"@.len() == 16);
    assert("SpatialClustering"@.len() == 17);
    assert("PatternBasedSectionDetection"@.len() == 28);
    assert("Validation"@.len() == 10);
}

/// Runs one named pass: SectionDetection, PatternBasedSectionDetection,
/// SpatialClustering, SizeEnforcer or Validation (which records issues and
/// leaves the elements as they are). Passes with other names (ListDetection
/// among them) leave the elements as they are.
#[verifier::rlimit(80)]
pub fn apply_rule_by_name(name: &str, elements: Vec<ParsedPdfElement>, config: &ParsingConfig) -> (r: Result<(Vec<ParsedPdfElement>, Option<ValidationReport>), PipelineError>)
    requires
        config.wf(),
    ensures
        r is Err <==> pass_fails(name@, *config, elements@),
        r matches Err(e) ==> e == pass_error(name@, *config, elements@),
        r matches Ok(v) ==> pass_rel(name@, *config, elements@, v.0@),
        r matches Ok(v) ==> (v.1 is Some <==> name@ == "Validation"@),
        r matches Ok(v) ==> (v.1 matches Some(rep) ==> rep.issues@ == issues_upto(elements@, elements@.len() as nat, config.section_and_hierarchy.max_depth)),
{
    let ghost inp = elements@;
    proof {
        lemma_pass_names_distinct();
    }
    if str_eq(name, "SectionDetection") {
        if elements.len() >= MAX_ELEMENTS {
            return Err(PipelineError::TooManyElements);
        }
        let analysis = analyze_font_sizes(&elements);
        let out = detect_sections(&elements, &analysis, &config.section_and_hierarchy);
        assert(analysis.describes(sizes_of(inp)));
        assert(name@ == "SectionDetection"@ && name@ != "Validation"@);
        assert(pass_rel(name@, *config, inp, out@));
        Ok((out, None))
    } else if str_eq(name, "SpatialClustering") {
        let sc = &config.spatial_clustering;
        if !check_boxes(&elements) {
            return Err(PipelineError::BoxOutOfRange);
        }
        let mut out = elements;
        if sc.enable_paragraph_merging {
            match cluster_paragraphs(&out) {
                None => {
                    return Err(PipelineError::TokenOverflow);
                },
                Some(m) => {
                    out = m;
                },
            }
        }
        let ghost mid = out@;
        assert(after_merge(inp, *sc, mid));
        if sc.enable_spatial_adjacency {
            match total_tokens(&out) {
                None => {
                    proof {
                        assert(after_merge(inp, *sc, mid) && token_sum(mid) > usize::MAX);
                    }
                    return Err(PipelineError::TokenOverflow);
                },
                Some(_) => {},
            }
            proof {
                assert forall|m2: Seq<ParsedPdfElement>| #[trigger] after_merge(inp, *sc, m2) implies token_sum(m2) <= usize::MAX by {
                    lemma_merge_unique(inp, *sc, mid, m2);
                }
            }
            out = cluster_adjacent(&out, sc);
        }
        assert(name@ == "SpatialClustering"@);
        assert(name@ != "SectionDetection"@ && name@ != "Validation"@);
        assert(after_merge(inp, *sc, mid) && (if sc.enable_spatial_adjacency {
            adjacent_clusters(mid, *sc, out@)
        } else {
            out@ == mid
        }));
        assert(pass_rel(name@, *config, inp, out@));
        Ok((out, None))
    } else if str_eq(name, "PatternBasedSectionDetection") {
        let out = detect_pattern_sections(&elements, &config.section_and_hierarchy);
        assert(name@ == "PatternBasedSectionDetection"@);
        assert(name@ != "SectionDetection"@ && name@ != "SpatialClustering"@ && name@ != "Validation"@);
        assert(pass_rel(name@, *config, inp, out@));
        Ok((out, None))
    } else if str_eq(name, "SizeEnforcer") {
        assert(name@ == "SizeEnforcer"@);
        assert(name@ != "SectionDetection"@ && name@ != "SpatialClustering"@ && name@ != "PatternBasedSectionDetection"@ && name@ != "Validation"@);
        if !config.size_enforcer.enabled {
            return Ok((elements, None));
        }
        if !check_boxes(&elements) {
            return Err(PipelineError::BoxOutOfRange);
        }
        let out = enforce_sizes(&elements, &config.size_enforcer);
        Ok((out, None))
    } else if str_eq(name, "Validation") {
        let report = validate_structure(&elements, config.section_and_hierarchy.max_depth);
        assert(name@ == "Validation"@);
        assert(name@ != "SectionDetection"@ && name@ != "SpatialClustering"@ && name@ != "PatternBasedSectionDetection"@);
        Ok((elements, Some(report)))
    } else {
        assert(name@ != "Validation"@);
        Ok((elements, None))
    }
}

/// Two merge results of the same input agree in their token counts.
proof fn lemma_merge_unique(s: Seq<ParsedPdfElement>, sc: SpatialClusteringConfig, m1: Seq<ParsedPdfElement>, m2: Seq<ParsedPdfElement>)
    requires
        after_merge(s, sc, m1),
        after_merge(s, sc, m2),
    ensures
        token_sum(m1) == token_sum(m2),
{
    if sc.enable_paragraph_merging {
        assert forall|t: int| 0 <= t < m1.len() implies (#[trigger] m1[t]).token_count == m2[t].token_count by {
            assert(is_merger(m2[t], sorted_group(s, first_keys(s)[group_order(s)[t].2 as int])));
        }
        lemma_token_sum_pointwise(m1, m2);
    }
}

proof fn lemma_token_sum_pointwise(a: Seq<ParsedPdfElement>, b: Seq<ParsedPdfElement>)
    requires
        a.len() == b.len(),
        forall|t: int| 0 <= t < a.len() ==> (#[trigger] a[t]).token_count == b[t].token_count,
    ensures
        token_sum(a) == token_sum(b),
    decreases a.len(),
{
    if a.len() > 0 {
        assert forall|t: int| 0 <= t < a.drop_last().len() implies (#[trigger] a.drop_last()[t]).token_count == b.drop_last()[t].token_count by {
            assert(a.drop_last()[t] == a[t]);
            assert(b.drop_last()[t] == b[t]);
        }
        lemma_token_sum_pointwise(a.drop_last(), b.drop_last());
        assert(a.last() == a[a.len() - 1]);
    }
}

/// `trace` records the elements before and after each of the first `k`
/// rules: an enabled rule's pass, or no change for a disabled one.
pub open spec fn trace_ok(rules: Seq<RuleConfig>, k: nat, config: ParsingConfig, trace: Seq<Seq<ParsedPdfElement>>) -> bool {
    &&& k <= rules.len()
    &&& trace.len() == k + 1
    &&& forall|j: int| 0 <= j < k ==> if (#[trigger] rules[j]).enabled {
        pass_rel(rules[j].name@, config, trace[j], trace[j + 1])
    } else {
        trace[j + 1] == trace[j]
    }
}

/// `out` is what the first `k` rules make of `inp`: each enabled rule's
/// pass applied in turn.
pub open spec fn pipeline_rel(rules: Seq<RuleConfig>, k: nat, config: ParsingConfig, inp: Seq<ParsedPdfElement>, out: Seq<ParsedPdfElement>) -> bool {
    exists|trace: Seq<Seq<ParsedPdfElement>>| #[trigger] trace_ok(rules, k, config, trace) && trace[0] == inp && trace[k as int] == out
}

/// Rule `k` is enabled, the rules before it make `mid` of `b`, and its pass
/// cannot run on `mid`, reporting `e`.
pub open spec fn fails_at(config: ParsingConfig, b: Seq<ParsedPdfElement>, k: int, mid: Seq<ParsedPdfElement>, e: PipelineError) -> bool {
    let rules = config.pipeline.rules@;
    &&& 0 <= k < rules.len()
    &&& rules[k].enabled
    &&& pipeline_rel(rules, k as nat, config, b, mid)
    &&& pass_fails(rules[k].name@, config, mid)
    &&& e == pass_error(rules[k].name@, config, mid)
}

/// What running the passes of `config` on `b` returns: the result of every
/// enabled pass in order, or the error of the first pass that cannot run.
pub open spec fn passes_post(b: Seq<ParsedPdfElement>, config: ParsingConfig, r: Result<Vec<ParsedPdfElement>, PipelineError>) -> bool {
    let rules = config.pipeline.rules@;
    match r {
        Ok(v) => pipeline_rel(rules, rules.len(), config, b, v@),
        Err(e) => exists|k: int, mid: Seq<ParsedPdfElement>| #[trigger] fails_at(config, b, k, mid, e),
    }
}

/// Runs the enabled passes of `config` in order. With no enabled pass the
/// elements come back unchanged.
pub fn run_passes(elements: Vec<ParsedPdfElement>, config: &ParsingConfig) -> (r: Result<Vec<ParsedPdfElement>, PipelineError>)
    requires
        config.wf(),
    ensures
        passes_post(elements@, *config, r),
        (forall|k: int| 0 <= k < config.pipeline.rules@.len() ==> !(#[trigger] config.pipeline.rules@[k]).enabled) ==> r == Ok::<Vec<ParsedPdfElement>, PipelineError>(elements),
{
    let ghost orig = elements;
    let ghost b = elements@;
    assert(b == orig@);
    let ghost rules = config.pipeline.rules@;
    let ghost mut trace: Seq<Seq<ParsedPdfElement>> = seq![elements@];
    let mut cur = elements;
    let mut ran = false;
    let mut failed: Option<PipelineError> = None;
    let mut k: usize = 0;
    while k < config.pipeline.rules.len() && failed.is_none()
        invariant
            config.wf(),
            rules == config.pipeline.rules@,
            k <= rules.len(),
            failed is None ==> trace_ok(rules, k as nat, *config, trace),
            failed is None ==> trace[0] == orig@,
            b == orig@,
            failed is None ==> trace[k as int] == cur@,
            failed matches Some(e) ==> passes_post(b, *config, Err::<Vec<ParsedPdfElement>, PipelineError>(e)),
            failed matches Some(e) ==> exists|j: int| 0 <= j < rules.len() && (#[trigger] rules[j]).enabled,
            !ran && failed is None ==> cur == orig,
            !ran && failed is None ==> forall|j: int| 0 <= j < k ==> !(#[trigger] rules[j]).enabled,
            ran ==> exists|j: int| 0 <= j < k && (#[trigger] rules[j]).enabled,
        decreases rules.len() - k,
    {
        let rule = &config.pipeline.rules[k];
        let ghost before = cur@;
        if rule.enabled {
            let input = cur;
            cur = Vec::new();
            match apply_rule_by_name(rule.name.as_str(), input, config) {
                Ok((next, _report)) => {
                    cur = next;
                    ran = true;
                    assert(rules[k as int].enabled);
                },
                Err(e) => {
                    let ghost ki: int = k as int;
                    assert(trace_ok(rules, k as nat, *config, trace) && trace[0] == orig@ && trace[k as int] == before);
                    assert(pipeline_rel(rules, ki as nat, *config, orig@, before));
                    assert(fails_at(*config, orig@, ki, before, e));
                    failed = Some(e);
                },
            }
        }
        proof {
            if failed is None {
                let t2 = trace.push(cur@);
                assert forall|j: int| 0 <= j < k + 1 implies if (#[trigger] rules[j]).enabled {
                    pass_rel(rules[j].name@, *config, t2[j], t2[j + 1])
                } else {
                    t2[j + 1] == t2[j]
                } by {
                    if j < k {
                        assert(t2[j] == trace[j] && t2[j + 1] == trace[j + 1]);
                    } else {
                        assert(t2[j] == before && t2[j + 1] == cur@);
                    }
                }
                trace = t2;
            }
        }
        k = k + 1;
    }
    if let Some(e) = failed {
        return Err(e);
    }
    assert(trace_ok(rules, rules.len(), *config, trace) && trace[0] == orig@ && trace[rules.len() as int] == cur@);
    Ok(cur)
}


} // verus!
