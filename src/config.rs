//! Parsing configuration. Sizes and lengths on the page are in thousandths
//! of a point; ratios and multipliers in thousandths.
use vstd::prelude::*;
use crate::types::DocumentType;
use crate::enforcer::SizeEnforcerConfig;

verus! {

/// One pass of the pipeline, by name.
#[derive(Debug, Clone)]
pub struct RuleConfig {
    pub name: String,
    pub enabled: bool,
}

/// The ordered passes to run.
#[derive(Debug, Clone)]
pub struct PipelineConfig {
    pub rules: Vec<RuleConfig>,
}

impl Default for PipelineConfig {
    /// Section detection, then spatial clustering, then validation.
    fn default() -> (r: Self)
        ensures
            r.rules@.len() == 3,
            r.rules@[0].name@ == "SectionDetection"@,
            r.rules@[1].name@ == "SpatialClustering"@,
            r.rules@[2].name@ == "Validation"@,
            forall|i: int| 0 <= i < 3 ==> r.rules@[i].enabled,
    {
        let mut rules: Vec<RuleConfig> = Vec::new();
        rules.push(RuleConfig { name: String::from_str("SectionDetection"), enabled: true });
        rules.push(RuleConfig { name: String::from_str("SpatialClustering"), enabled: true });
        rules.push(RuleConfig { name: String::from_str("Validation"), enabled: true });
        PipelineConfig { rules }
    }
}

/// Regex-based promotion of elements to sections.
#[derive(Debug, Clone)]
pub struct PatternDetectionConfig {
    pub enabled: bool,
    pub patterns: Vec<String>,
    pub respect_font_constraints: bool,
}

impl Default for PatternDetectionConfig {
    fn default() -> (r: Self)
        ensures
            r.enabled,
            r.respect_font_constraints,
            r.patterns@.len() == 4,
    {
        let mut patterns: Vec<String> = Vec::new();
        patterns.push(String::from_str("^[A-Z][A-Z\\s]{2,}$"));
        patterns.push(String::from_str("^\\d+\\.\\s+[A-Z][a-z]{3,}"));
        patterns.push(String::from_str("^(Chapter|Section|Part|Article)\\s+\\d+"));
        patterns.push(String::from_str("^[A-Z][a-z]{2,}(?:\\s+[A-Z][a-z]{2,})*:$"));
        PatternDetectionConfig { enabled: true, patterns, respect_font_constraints: true }
    }
}

/// Gates of section promotion and of hierarchy assignment.
#[derive(Debug, Clone)]
pub struct SectionAndHierarchyConfig {
    pub large_header_threshold: u32,
    pub medium_header_threshold: u32,
    pub small_header_threshold: u32,
    /// Thousandths of a point.
    pub min_header_size: u32,
    pub use_bold_indicator: bool,
    pub bold_size_strict: bool,
    pub max_depth: u32,
    /// Thousandths of a point.
    pub font_size_tolerance: u32,
    pub enforce_max_depth: bool,
    pub starting_section_level: u32,
    pub pattern_detection: PatternDetectionConfig,
}

impl SectionAndHierarchyConfig {
    /// Sections start at level 1 or deeper (only the root has depth 0), and
    /// the starting level leaves room below it for a level count that fits
    /// the element count.
    pub open spec fn wf(&self) -> bool {
        &&& 1 <= self.starting_section_level < 0x3fff_ffff
        &&& 1 <= self.max_depth
    }
}

impl Default for SectionAndHierarchyConfig {
    fn default() -> (r: Self)
        ensures
            r.wf(),
            r.min_header_size == 8500,
            r.use_bold_indicator && r.bold_size_strict && r.enforce_max_depth,
            r.max_depth == 5,
            r.font_size_tolerance == 100,
            r.starting_section_level == 1,
    {
        SectionAndHierarchyConfig {
            large_header_threshold: 700,
            medium_header_threshold: 300,
            small_header_threshold: 100,
            min_header_size: 8500,
            use_bold_indicator: true,
            bold_size_strict: true,
            max_depth: 5,
            font_size_tolerance: 100,
            enforce_max_depth: true,
            starting_section_level: 1,
            pattern_detection: PatternDetectionConfig::default(),
        }
    }
}

/// Size bounds of merged segments of one element type, in characters.
#[derive(Debug, Clone, Copy)]
pub struct ElementClusteringConfig {
    pub min_segment_size: usize,
    pub max_segment_size: usize,
}

/// Geometry of the clustering pass.
#[derive(Debug, Clone, Copy)]
pub struct SpatialClusteringConfig {
    pub enabled: bool,
    pub enable_paragraph_merging: bool,
    pub enable_spatial_adjacency: bool,
    /// Thousandths of a point.
    pub min_line_height: u32,
    /// Thousandths.
    pub vertical_gap_threshold_multiplier: u32,
    /// Thousandths of a point.
    pub horizontal_alignment_tolerance: u32,
    /// Thousandths.
    pub line_grouping_tolerance: u32,
    pub sections: ElementClusteringConfig,
    pub paragraphs: ElementClusteringConfig,
}

impl Default for SpatialClusteringConfig {
    fn default() -> (r: Self)
        ensures
            r.enabled && r.enable_paragraph_merging && !r.enable_spatial_adjacency,
            r.min_line_height == 8000,
            r.vertical_gap_threshold_multiplier == 800,
            r.horizontal_alignment_tolerance == 10000,
            r.sections.max_segment_size == 300,
            r.paragraphs.max_segment_size == 8000,
    {
        SpatialClusteringConfig {
            enabled: true,
            enable_paragraph_merging: true,
            enable_spatial_adjacency: false,
            min_line_height: 8000,
            vertical_gap_threshold_multiplier: 800,
            horizontal_alignment_tolerance: 10000,
            line_grouping_tolerance: 300,
            sections: ElementClusteringConfig { min_segment_size: 20, max_segment_size: 300 },
            paragraphs: ElementClusteringConfig { min_segment_size: 100, max_segment_size: 8000 },
        }
    }
}

/// Numbering checks of the list validator.
#[derive(Debug, Clone, Copy)]
pub struct SequentialNumberingConfig {
    pub allow_letter_sequences: bool,
    pub max_gap_tolerance: u32,
}

impl Default for SequentialNumberingConfig {
    fn default() -> (r: Self)
        ensures
            r.allow_letter_sequences,
            r.max_gap_tolerance == 0,
    {
        SequentialNumberingConfig { allow_letter_sequences: true, max_gap_tolerance: 0 }
    }
}

/// Symbols and terms that mark mathematical text.
#[derive(Debug, Clone)]
pub struct MathematicalContextConfig {
    pub symbols: Vec<String>,
    pub terms: Vec<String>,
}

impl Default for MathematicalContextConfig {
    fn default() -> (r: Self)
        ensures
            r.symbols@.len() == 6,
            r.terms@.len() == 5,
    {
        MathematicalContextConfig {
            symbols: default_mathematical_symbols(),
            terms: default_mathematical_terms(),
        }
    }
}

/// Arrows and quantifiers.
pub fn default_mathematical_symbols() -> (r: Vec<String>)
    ensures
        r@.len() == 6,
{
    let mut v: Vec<String> = Vec::new();
    v.push(String::from_str("\u{2192}"));
    v.push(String::from_str("\u{2190}"));
    v.push(String::from_str("\u{21D2}"));
    v.push(String::from_str("\u{21D0}"));
    v.push(String::from_str("\u{2200}"));
    v.push(String::from_str("\u{2203}"));
    v
}

/// Words that suggest a mathematical passage.
pub fn default_mathematical_terms() -> (r: Vec<String>)
    ensures
        r@.len() == 5,
{
    let mut v: Vec<String> = Vec::new();
    v.push(String::from_str("equation"));
    v.push(String::from_str("formula"));
    v.push(String::from_str("coordinates"));
    v.push(String::from_str("system"));
    v.push(String::from_str("transform"));
    v
}

/// How hyphen-led items are judged.
#[derive(Debug, Clone, Copy, PartialEq, Eq, Structural)]
pub enum HyphenStrategy {
    /// Never a list.
    Reject,
    /// Each item starts with a hyphen (and a space, when required) and is
    /// neither a hyphenated word nor a minus sign.
    Strict,
    /// No item is a hyphenated word or a minus sign.
    ContextAware,
    /// Always accepted.
    Permissive,
}

/// The hyphen rule of the list validator.
#[derive(Debug, Clone, Copy)]
pub struct HyphenContextConfig {
    pub strategy: HyphenStrategy,
    pub require_space_after: bool,
}

impl Default for HyphenContextConfig {
    fn default() -> (r: Self)
        ensures
            r.strategy == HyphenStrategy::Strict,
            r.require_space_after,
    {
        HyphenContextConfig { strategy: HyphenStrategy::Strict, require_space_after: true }
    }
}

/// Which checks the list validator applies.
#[derive(Debug, Clone)]
pub struct ListValidationConfig {
    pub enabled: bool,
    pub minimum_size_check: bool,
    pub first_item_validation: bool,
    pub parenthetical_context_check: bool,
    pub sequential_numbering_check: bool,
    pub mathematical_context_check: bool,
    pub hyphen_context_check: bool,
    pub sequential_numbering: SequentialNumberingConfig,
    pub mathematical_context: MathematicalContextConfig,
    pub hyphen_context: HyphenContextConfig,
}

impl Default for ListValidationConfig {
    /// Every check on.
    fn default() -> (r: Self)
        ensures
            r.enabled && r.minimum_size_check && r.first_item_validation,
            r.parenthetical_context_check && r.sequential_numbering_check,
            r.mathematical_context_check && r.hyphen_context_check,
    {
        ListValidationConfig {
            enabled: true,
            minimum_size_check: true,
            first_item_validation: true,
            parenthetical_context_check: true,
            sequential_numbering_check: true,
            mathematical_context_check: true,
            hyphen_context_check: true,
            sequential_numbering: SequentialNumberingConfig::default(),
            mathematical_context: MathematicalContextConfig::default(),
            hyphen_context: HyphenContextConfig::default(),
        }
    }
}

/// The effective configuration of one parse.
#[derive(Debug, Clone)]
pub struct ParsingConfig {
    pub document_type: DocumentType,
    pub section_and_hierarchy: SectionAndHierarchyConfig,
    pub spatial_clustering: SpatialClusteringConfig,
    pub include_raw_tika: bool,
    pub pipeline: PipelineConfig,
    pub list_validation: ListValidationConfig,
    pub size_enforcer: SizeEnforcerConfig,
    pub minimal_parse: bool,
}

impl ParsingConfig {
    pub open spec fn wf(&self) -> bool {
        self.section_and_hierarchy.wf()
    }
}

impl Default for ParsingConfig {
    fn default() -> (r: Self)
        ensures
            r.wf(),
            r.document_type == DocumentType::Generic,
            !r.minimal_parse,
            !r.include_raw_tika,
    {
        ParsingConfig {
            document_type: DocumentType::Generic,
            section_and_hierarchy: SectionAndHierarchyConfig::default(),
            spatial_clustering: SpatialClusteringConfig::default(),
            include_raw_tika: false,
            pipeline: PipelineConfig::default(),
            list_validation: ListValidationConfig::default(),
            size_enforcer: SizeEnforcerConfig::default(),
            minimal_parse: false,
        }
    }
}

} // verus!
