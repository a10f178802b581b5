use blazegraph::enforcer::{split_element, SizeEnforcerConfig, SplitDirection};
use blazegraph::confighash::{calculate_config_hash, config_bytes};
use blazegraph::cache::{calculate_pdf_hash, calculate_xhtml_hash, GraphCacheKey};
use blazegraph::clustering::{cluster_adjacent, cluster_paragraphs};
use blazegraph::config::{ParsingConfig, RuleConfig, SectionAndHierarchyConfig, SpatialClusteringConfig};
use blazegraph::engine::{run_passes, RuleEngine};
use blazegraph::fonts::analyze_font_sizes;
use blazegraph::geometry::{merge_bounding_boxes, BoundingBox};
use blazegraph::graph::{BuildError, GraphBuilder};
use blazegraph::numbers::{parse_number_milli, parse_u32};
use blazegraph::processor::process_elements;
use blazegraph::sections::{detect_sections, HierarchyContext};
use blazegraph::storage::{DocumentStorage, FileStorage, NoOpStorage};
use blazegraph::types::{
    DocumentMetadata, FontClass, NodeType, ParsedElementType, ParsedPdfElement, PdfTextElement,
};
use blazegraph::validation::{validate_structure, ValidationIssue};
use blazegraph::xhtml::{parse_bbox, parse_xhtml};

fn font(name: &str, size: u32, weight: &str) -> FontClass {
    FontClass {
        class_name: name.to_string(),
        font_family: "Serif".to_string(),
        font_size: size,
        font_style: "normal".to_string(),
        font_weight: weight.to_string(),
        color: "#000000".to_string(),
    }
}

fn bx(x: i64, y: i64, w: i64, h: i64) -> BoundingBox {
    BoundingBox { x, y, width: w, height: h }
}

fn elem(kind: ParsedElementType, text: &str, level: u32, size: u32) -> ParsedPdfElement {
    ParsedPdfElement {
        element_type: kind,
        text: text.to_string(),
        hierarchy_level: level,
        position: 0,
        style_info: font("f1", size, "normal"),
        bounding_box: bx(0, 0, 10_000, 10_000),
        page_number: 1,
        paragraph_number: 0,
        reading_order: 0,
        bookmark_match: None,
        token_count: 3,
    }
}

fn text_elem(text: &str, size: u32, weight: &str, y: i64, para: u32) -> PdfTextElement {
    PdfTextElement {
        text: text.to_string(),
        style_info: font("f1", size, weight),
        bounding_box: bx(72_000, y, 100_000, 12_000),
        page_number: 1,
        paragraph_number: para,
        line_number: 0,
        segment_number: 0,
        reading_order: para,
        bookmark_match: None,
        token_count: 2,
    }
}

#[test]
fn empty_input_gives_lone_document_root() {
    let g = GraphBuilder::new().build_graph(Vec::new()).unwrap();
    assert_eq!(g.nodes.len(), 1);
    assert_eq!(g.nodes[0].node_type, NodeType::Document);
    assert!(g.nodes[0].children.is_empty());
    assert!(g.nodes[0].parent.is_none());
    assert!(g.nodes[0].text_order.is_none());
    assert_eq!(g.nodes[0].content.text, "Document");
}

#[test]
fn paragraphs_without_sections_sit_at_depth_one() {
    let v = vec![
        elem(ParsedElementType::Paragraph, "a", 1, 10_000),
        elem(ParsedElementType::Paragraph, "b", 1, 10_000),
    ];
    let g = GraphBuilder::new().build_graph(v).unwrap();
    assert_eq!(g.nodes.len(), 3);
    for n in &g.nodes[1..] {
        assert_eq!(n.location.semantic.depth, 1);
        assert_eq!(n.parent, Some(0));
    }
    assert_eq!(g.nodes[1].location.semantic.path, "1");
    assert_eq!(g.nodes[2].location.semantic.path, "2");
    assert_eq!(g.nodes[0].children, vec![1, 2]);
}

#[test]
fn sections_nest_and_carry_breadcrumbs() {
    let v = vec![
        elem(ParsedElementType::Section, "  Intro  ", 1, 14_000),
        elem(ParsedElementType::Paragraph, "body", 2, 10_000),
        elem(ParsedElementType::Section, "Detail", 2, 12_000),
        elem(ParsedElementType::Paragraph, "more", 3, 10_000),
        elem(ParsedElementType::Section, "Next", 1, 14_000),
    ];
    let mut meta = DocumentMetadata::default();
    meta.title = Some("Paper".to_string());
    let g = GraphBuilder::new().build_graph_with_metadata(v, meta).unwrap();
    assert_eq!(g.nodes[0].content.text, "Paper");
    assert_eq!(g.nodes[0].location.semantic.breadcrumbs, vec!["Paper".to_string()]);
    assert_eq!(g.nodes[1].content.text, "Intro");
    assert_eq!(g.nodes[1].location.semantic.breadcrumbs, vec!["Paper", "Intro"]);
    assert_eq!(g.nodes[2].parent, Some(1));
    assert_eq!(g.nodes[2].location.semantic.breadcrumbs, vec!["Paper", "Intro"]);
    assert_eq!(g.nodes[3].location.semantic.path, "1.2");
    assert_eq!(g.nodes[4].parent, Some(3));
    assert_eq!(g.nodes[4].location.semantic.path, "1.2.1");
    assert_eq!(g.nodes[4].location.semantic.breadcrumbs, vec!["Paper", "Intro", "Detail"]);
    assert_eq!(g.nodes[5].parent, Some(0));
    assert_eq!(g.nodes[5].location.semantic.path, "2");
    for n in &g.nodes[1..] {
        let parts = n.location.semantic.path.split('.').count();
        assert_eq!(parts as u32, n.location.semantic.depth);
    }
    for (i, n) in g.nodes.iter().enumerate().skip(1) {
        assert_eq!(n.text_order, Some(i - 1));
    }
}

#[test]
fn level_jump_is_rejected() {
    let v = vec![elem(ParsedElementType::Paragraph, "deep", 3, 10_000)];
    let r = GraphBuilder::new().build_graph(v);
    assert!(matches!(r, Err(BuildError::InvalidLevel(0))));
    let z = vec![elem(ParsedElementType::Paragraph, "zero", 0, 10_000)];
    assert!(GraphBuilder::new().build_graph(z).is_err());
}

#[test]
fn output_shapes_follow_text_order() {
    let v = vec![
        elem(ParsedElementType::Section, "Head", 1, 14_000),
        elem(ParsedElementType::Paragraph, "one", 2, 10_000),
        elem(ParsedElementType::Paragraph, "two", 2, 10_000),
    ];
    let g = GraphBuilder::new().build_graph(v).unwrap();
    let sorted = g.to_sorted_graph();
    assert_eq!(sorted.schema_version, "0.2.0");
    assert_eq!(sorted.nodes.len(), 4);
    assert!(sorted.nodes[0].text_order.is_none());
    let seq = g.to_sequential_format();
    assert_eq!(seq.format, "sequential");
    assert_eq!(seq.segments.len(), 4);
    assert_eq!(seq.segments[2].id, 2);
    let flat = g.to_flat_format();
    assert_eq!(flat.format, "flat");
    assert_eq!(flat.chunks, vec!["one", "two"]);
    let lone = GraphBuilder::new().build_graph(Vec::new()).unwrap();
    assert_eq!(lone.to_flat_format().chunks, vec!["Document"]);
    assert_eq!(g.max_depth(), 2);
}

#[test]
fn hierarchy_context_tracks_sizes() {
    let cfg = SectionAndHierarchyConfig::default();
    let mut ctx = HierarchyContext::new();
    assert_eq!(ctx.get_content_level(), 1);
    assert_eq!(ctx.update_for_section(20_000, &cfg), 1);
    assert_eq!(ctx.update_for_section(16_000, &cfg), 2);
    assert_eq!(ctx.update_for_section(16_050, &cfg), 2);
    assert_eq!(ctx.update_for_section(12_000, &cfg), 3);
    assert_eq!(ctx.get_content_level(), 4);
    assert_eq!(ctx.update_for_section(20_000, &cfg), 1);
}

#[test]
fn max_depth_caps_nested_headers() {
    let mut cfg = SectionAndHierarchyConfig::default();
    cfg.max_depth = 2;
    let mut ctx = HierarchyContext::new();
    assert_eq!(ctx.update_for_section(30_000, &cfg), 1);
    assert_eq!(ctx.update_for_section(25_000, &cfg), 2);
    assert_eq!(ctx.update_for_section(20_000, &cfg), 2);
    assert_eq!(ctx.update_for_section(15_000, &cfg), 2);
    assert_eq!(ctx.get_content_level(), 3);
}

#[test]
fn font_analysis_finds_body_and_headers() {
    let mut v = Vec::new();
    for _ in 0..6 {
        v.push(elem(ParsedElementType::Paragraph, "body text here", 1, 10_000));
    }
    v.push(elem(ParsedElementType::Paragraph, "Heading", 1, 16_000));
    v.push(elem(ParsedElementType::Paragraph, "small", 1, 8_000));
    let a = analyze_font_sizes(&v);
    assert_eq!(a.body_text_size, 10_000);
    assert_eq!(a.max_frequency, 6);
    assert_eq!(a.potential_header_sizes, vec![16_000]);
    assert_eq!(a.min_size, 8_000);
    assert_eq!(a.max_size, 16_000);
    assert_eq!(a.total_elements, 8);
    assert_eq!(a.hierarchy_levels, vec![16_000, 10_000, 8_000]);
    assert_eq!(a.median_size, 10_000);
    let sc: Vec<u32> = a.size_counts.iter().map(|c| c.size).collect();
    assert_eq!(sc, vec![10_000, 16_000, 8_000]);
    let e = analyze_font_sizes(&Vec::new());
    assert_eq!(e.body_text_size, 12_000);
}

#[test]
fn section_detection_promotes_large_rare_text() {
    let mut v = Vec::new();
    v.push(elem(ParsedElementType::Paragraph, "Introduction", 1, 16_000));
    for _ in 0..5 {
        v.push(elem(ParsedElementType::Paragraph, "body text here", 1, 10_000));
    }
    v.push(elem(ParsedElementType::Paragraph, "Hi", 1, 16_000));
    let a = analyze_font_sizes(&v);
    let out = detect_sections(&v, &a, &SectionAndHierarchyConfig::default());
    assert_eq!(out[0].element_type, ParsedElementType::Section);
    assert_eq!(out[0].hierarchy_level, 1);
    assert_eq!(out[1].element_type, ParsedElementType::Paragraph);
    assert_eq!(out[1].hierarchy_level, 2);
    assert_eq!(out[6].element_type, ParsedElementType::Paragraph);
    let g = GraphBuilder::new().build_graph(out).unwrap();
    assert_eq!(g.nodes[2].parent, Some(1));
}

#[test]
fn paragraph_merging_unites_boxes_and_tokens() {
    let mut a = elem(ParsedElementType::Paragraph, "first", 1, 10_000);
    a.bounding_box = bx(0, 0, 10_000, 5_000);
    a.token_count = 2;
    let mut b = elem(ParsedElementType::Paragraph, "second", 1, 10_000);
    b.bounding_box = bx(20_000, 8_000, 5_000, 5_000);
    b.token_count = 3;
    let mut c = elem(ParsedElementType::Paragraph, "other", 1, 10_000);
    c.paragraph_number = 1;
    let out = cluster_paragraphs(&vec![a, b, c]).unwrap();
    assert_eq!(out.len(), 2);
    assert_eq!(out[0].text, "first second");
    assert_eq!(out[0].bounding_box, bx(0, 0, 25_000, 13_000));
    assert_eq!(out[0].token_count, 5);
    assert_eq!(out[1].text, "other");
}

#[test]
fn adjacency_clustering_merges_neighbours_only() {
    let mut a = elem(ParsedElementType::Paragraph, "line one", 1, 10_000);
    a.bounding_box = bx(0, 0, 50_000, 10_000);
    let mut b = elem(ParsedElementType::Paragraph, "line two", 1, 10_000);
    b.bounding_box = bx(0, 12_000, 50_000, 10_000);
    let mut c = elem(ParsedElementType::Paragraph, "far away", 1, 10_000);
    c.bounding_box = bx(0, 200_000, 50_000, 10_000);
    let out = cluster_adjacent(&vec![a, b, c], &SpatialClusteringConfig::default());
    assert_eq!(out.len(), 2);
    assert_eq!(out[0].text, "line one line two");
    assert_eq!(out[0].bounding_box, bx(0, 0, 50_000, 22_000));
    assert_eq!(out[0].token_count, 6);
}

#[test]
fn merged_box_is_tight_union() {
    let r = merge_bounding_boxes(&bx(5, 5, 10, 10), &bx(0, 8, 3, 20));
    assert_eq!(r, bx(0, 5, 15, 23));
}

#[test]
fn validation_reports_each_issue_kind() {
    let mut a = elem(ParsedElementType::Section, "ab", 1, 10_000);
    a.page_number = 0;
    a.bounding_box = bx(-1, 0, 0, 5);
    let mut b = elem(ParsedElementType::Paragraph, "text", 7, 10_000);
    b.page_number = 9;
    b.reading_order = 50;
    let report = validate_structure(&vec![a, b], 5);
    let issues = &report.issues;
    assert!(issues.contains(&ValidationIssue::InvalidPosition { position: 0 }));
    assert!(issues.contains(&ValidationIssue::PageInconsistency { position: 0, page: 0 }));
    assert!(issues.contains(&ValidationIssue::SuspiciousSection { position: 0 }));
    assert!(issues.contains(&ValidationIssue::OrphanedElement { level: 7, position: 1 }));
    assert!(issues.contains(&ValidationIssue::HierarchyJump { from_level: 1, to_level: 7, from_pos: 0, to_pos: 1 }));
    assert!(issues.contains(&ValidationIssue::ReadingOrderInconsistency { position: 1, expected_order: 1, actual_order: 50 }));
    assert!(issues.contains(&ValidationIssue::PageInconsistency { position: 1, page: 9 }));
    assert_eq!(report.quality_score, 0);
    let clean = validate_structure(&vec![elem(ParsedElementType::Paragraph, "fine", 1, 10_000)], 5);
    assert!(clean.issues.is_empty());
    assert_eq!(clean.quality_score, 1000);
    assert_eq!(validate_structure(&Vec::new(), 5).quality_score, 1000);
}

#[test]
fn empty_pipeline_is_identity() {
    let mut cfg = ParsingConfig::default();
    cfg.pipeline.rules = vec![RuleConfig { name: "Validation".to_string(), enabled: false }];
    let v = vec![elem(ParsedElementType::Section, "Keep", 2, 10_000)];
    let out = run_passes(v, &cfg).unwrap();
    assert_eq!(out.len(), 1);
    assert_eq!(out[0].hierarchy_level, 2);
    assert_eq!(out[0].element_type, ParsedElementType::Section);
}

#[test]
fn unknown_pass_names_are_skipped() {
    let mut cfg = ParsingConfig::default();
    cfg.pipeline.rules = vec![RuleConfig { name: "NoSuchPass".to_string(), enabled: true }];
    let v = vec![elem(ParsedElementType::Paragraph, "x", 1, 10_000)];
    let out = run_passes(v, &cfg).unwrap();
    assert_eq!(out[0].text, "x");
}

#[test]
fn minimal_parse_gives_flat_paragraphs() {
    let mut cfg = ParsingConfig::default();
    cfg.minimal_parse = true;
    let engine = RuleEngine::new(cfg);
    let t = vec![
        text_elem("Big Title Here", 20_000, "bold", 0, 0),
        text_elem("   ", 10_000, "normal", 20_000, 1),
        text_elem("body", 10_000, "normal", 40_000, 2),
    ];
    let d = process_elements(&engine, &t, DocumentMetadata::default()).unwrap();
    assert_eq!(d.graph.nodes.len(), 3);
    for n in &d.graph.nodes[1..] {
        assert_eq!(n.node_type, NodeType::Paragraph);
        assert_eq!(n.location.semantic.depth, 1);
    }
    assert_eq!(d.structural_profile.total_nodes, 3);
    assert_eq!(d.structural_profile.type_counts, vec![1, 0, 2, 0, 0]);
}

#[test]
fn full_pipeline_builds_sections() {
    let engine = RuleEngine::new(ParsingConfig::default());
    let mut t = vec![text_elem("Introduction", 16_000, "bold", 0, 0)];
    for i in 1..6u32 {
        t.push(text_elem("plain body sentence", 10_000, "normal", 20_000 * i as i64, i));
    }
    let d = process_elements(&engine, &t, DocumentMetadata::default()).unwrap();
    assert_eq!(d.graph.nodes[1].node_type, NodeType::Section);
    assert_eq!(d.graph.nodes[2].parent, Some(1));
    assert_eq!(d.graph.nodes[2].location.semantic.breadcrumbs, vec!["Introduction".to_string()]);
}

#[test]
fn numbers_read_in_thousandths() {
    assert_eq!(parse_number_milli("12.5"), Some(12_500));
    assert_eq!(parse_number_milli("-3.25"), Some(-3_250));
    assert_eq!(parse_number_milli("7"), Some(7_000));
    assert_eq!(parse_number_milli("1.23456"), Some(1_234));
    assert_eq!(parse_number_milli("x1"), None);
    assert_eq!(parse_number_milli(""), None);
    assert_eq!(parse_u32("42"), Some(42));
    assert_eq!(parse_u32("4a"), None);
    assert_eq!(parse_bbox("1,2.5,3,4"), Some(bx(1_000, 2_500, 3_000, 4_000)));
    assert_eq!(parse_bbox("1,2,3"), None);
    assert_eq!(parse_bbox("1,2,-3,4"), Some(bx(1_000, 2_000, -3_000, 4_000)));
    assert_eq!(parse_number_milli("+.5"), Some(500));
    assert_eq!(parse_number_milli("3."), Some(3_000));
    assert_eq!(parse_number_milli("."), None);
    assert_eq!(parse_number_milli("1.0E-4"), None);
}

const DOC: &str = r#"<html><head>
<meta name="dc:title" content="On Graphs" />
<meta name="dc:creator" content="A. Author" />
<meta name="xmpTPg:NPages" content="2" />
<meta name="pdf:encrypted" content="false" />
<style>
.f1 { font-family: Serif; font-size: 10.0px; font-style: normal; font-weight: normal; color: #000000; }
.f2 { font-family: Serif-Bold; font-size: 16.0px; font-style: normal; font-weight: bold; color: #111111; }
</style></head><body>
<ul><li>Introduction</li><li>  </li><li>Method</li></ul>
<div class="page" data-page="1">
<p><span class="f2" data-bbox="72,100,200,16" data-line="0" data-segment="0">Introduction</span></p>
<p><span class="f1" data-bbox="90,140,300,10" data-line="1" data-segment="1">second run</span><span class="f1" data-bbox="72,140,10,10" data-line="1" data-segment="0">first run</span><span class="f9" data-bbox="bad" data-line="1" data-segment="2">dropped</span></p>
</div>
<div class="page" data-page="2">
<p><span class="f3" data-bbox="72,50,100,10" data-line="0" data-segment="0">page two</span><span class="f1" data-bbox="1,1,1,1" data-line="0" data-segment="1">   </span></p>
</div>
</body></html>"#;

#[test]
fn xhtml_document_is_read() {
    let out = parse_xhtml(DOC);
    assert_eq!(out.metadata.title.as_deref(), Some("On Graphs"));
    assert_eq!(out.metadata.author.as_deref(), Some("A. Author"));
    assert_eq!(out.metadata.page_count, 2);
    assert_eq!(out.metadata.encrypted, Some(false));
    assert_eq!(out.style_data.font_classes.len(), 2);
    assert_eq!(out.style_data.font_classes[1].font_size, 16_000);
    assert_eq!(out.style_data.font_classes[1].font_weight, "bold");
    let b = out.bookmark_data.unwrap();
    assert_eq!(b.sections.len(), 2);
    assert_eq!(b.sections[1].title, "Method");
    assert_eq!(b.sections[1].order, 1);
    let t = &out.text_elements;
    assert_eq!(t.len(), 4);
    assert_eq!(t[0].text, "Introduction");
    assert!(t[0].bookmark_match.is_some());
    assert_eq!(t[1].text, "first run");
    assert_eq!(t[2].text, "second run");
    assert_eq!(t[1].paragraph_number, 1);
    assert_eq!(t[3].text, "page two");
    assert_eq!(t[3].page_number, 2);
    assert_eq!(t[3].paragraph_number, 2);
    assert_eq!(t[3].style_info.font_family, "unknown");
    assert_eq!(t[3].style_info.font_size, 12_000);
    for (i, e) in t.iter().enumerate() {
        assert_eq!(e.reading_order as usize, i);
    }
    assert_eq!(t[2].token_count, 2);
}

#[test]
fn missing_style_block_falls_back() {
    let out = parse_xhtml(r#"<div class="page"><p><span class="f1" data-bbox="0,0,5,5" data-line="x" data-segment="1">hello</span></p></div>"#);
    assert!(out.style_data.font_classes.is_empty());
    assert!(out.bookmark_data.is_none());
    assert_eq!(out.text_elements.len(), 1);
    assert_eq!(out.text_elements[0].line_number, 0);
    assert_eq!(out.text_elements[0].style_info.class_name, "f1");
    assert_eq!(out.text_elements[0].style_info.color, "#000000");
}

#[test]
fn test_pdf_hash_consistency() {
    let data = b"test pdf content with some data";
    assert_eq!(calculate_pdf_hash(data), calculate_pdf_hash(data));
}

#[test]
fn test_pdf_hash_uniqueness() {
    assert_ne!(calculate_pdf_hash(b"test pdf content 1"), calculate_pdf_hash(b"test pdf content 2"));
}

#[test]
fn large_pdf_fingerprint_reads_both_ends() {
    let a = vec![7u8; 5000];
    let mut b = a.clone();
    b[2500] = 9;
    assert_eq!(calculate_pdf_hash(&a), calculate_pdf_hash(&b));
    let mut c = a.clone();
    c[4999] = 9;
    assert_ne!(calculate_pdf_hash(&a), calculate_pdf_hash(&c));
    assert_eq!(calculate_pdf_hash(&a).len(), 64);
}

#[test]
fn xhtml_hash_is_sha256() {
    assert_eq!(
        calculate_xhtml_hash(""),
        "e3b0c44298fc1c149afbf4c8996fb92427ae41e4649b934ca495991b7852b855"
    );
    assert_eq!(
        calculate_xhtml_hash("abc"),
        "ba7816bf8f01cfea414140de5dae2223b00361a396177a9cb410ff61f20015ad"
    );
}

#[test]
fn cache_key_hash_depends_on_config() {
    let k1 = GraphCacheKey::new("x".to_string(), "c1".to_string());
    let k2 = GraphCacheKey::new("x".to_string(), "c2".to_string());
    assert_eq!(k1.blazegraph_version, "0.1.0");
    assert_eq!(k1.processing_version, "1.0.0");
    assert_ne!(k1.to_cache_hash(), k2.to_cache_hash());
    // the key hash digests the four fields one after the other
    assert_eq!(k1.to_cache_hash(), calculate_xhtml_hash("xc10.1.01.0.0"));
}

#[test]
fn storage_paths_and_null_store() {
    let fs = FileStorage::new("/cache");
    assert_eq!(fs.pdf_path("ab"), "/cache/pdfs/ab.pdf");
    assert_eq!(fs.tika_path("ab"), "/cache/tika/ab.json");
    assert_eq!(fs.preprocessor_path("ab"), "/cache/preprocessor/ab.json");
    let k = GraphCacheKey::new("x".to_string(), "y".to_string());
    assert_eq!(fs.graph_path(&k), format!("/cache/graph/{}.json", k.to_cache_hash()));
    let n = NoOpStorage::new();
    assert!(n.get_graph_output(&k).unwrap().is_none());
    assert!(n.store_graph_output(&k, "{}").is_ok());
    assert!(n.get_tika_output("h").unwrap().is_none());
}

#[test]
fn metadata_merge_keeps_absent_fields() {
    let mut m = DocumentMetadata::default();
    m.title = Some("Old".to_string());
    m.page_count = 3;
    let mut e = DocumentMetadata::default();
    e.author = Some("New".to_string());
    m.merge_extracted(e);
    assert_eq!(m.title.as_deref(), Some("Old"));
    assert_eq!(m.author.as_deref(), Some("New"));
    assert_eq!(m.page_count, 3);
}

#[test]
fn default_config_values() {
    let c = ParsingConfig::default();
    assert_eq!(c.section_and_hierarchy.min_header_size, 8_500);
    assert_eq!(c.section_and_hierarchy.max_depth, 5);
    assert_eq!(c.pipeline.rules.len(), 3);
    assert!(!c.minimal_parse);
}

#[test]
fn config_hash_changes_with_any_leaf() {
    let base = ParsingConfig::default();
    let h = calculate_config_hash(&base);
    assert_eq!(h.len(), 64);
    assert_eq!(h, calculate_config_hash(&ParsingConfig::default()));
    let mut a = ParsingConfig::default();
    a.section_and_hierarchy.max_depth = 6;
    assert_ne!(calculate_config_hash(&a), h);
    let mut b = ParsingConfig::default();
    b.minimal_parse = true;
    assert_ne!(calculate_config_hash(&b), h);
    let mut c = ParsingConfig::default();
    c.pipeline.rules[0].name = "SectionDetectionX".to_string();
    assert_ne!(calculate_config_hash(&c), h);
    let mut d = ParsingConfig::default();
    d.list_validation.mathematical_context.terms.push("matrix".to_string());
    assert_ne!(calculate_config_hash(&d), h);
    // 41 leaf groups: 37 numbers, 3 text lists (4 patterns, 6 symbols, 5 terms), 3 rules
    assert!(config_bytes(&base).len() > 41 * 8);
}

#[test]
fn pattern_pass_promotes_matching_paragraphs() {
    use_pattern_pass();
}

fn use_pattern_pass() {
    let cfg = SectionAndHierarchyConfig::default();
    let v = vec![
        elem(ParsedElementType::Paragraph, "Chapter 3 Results", 2, 10_000),
        elem(ParsedElementType::Paragraph, "ordinary text", 2, 10_000),
        elem(ParsedElementType::Paragraph, "Chapter 4 Tiny", 2, 6_000),
    ];
    let out = blazegraph::sections::detect_pattern_sections(&v, &cfg);
    assert_eq!(out[0].element_type, ParsedElementType::Section);
    assert_eq!(out[0].hierarchy_level, 2);
    assert_eq!(out[1].element_type, ParsedElementType::Paragraph);
    assert_eq!(out[2].element_type, ParsedElementType::Paragraph);
}

#[test]
fn paragraph_merging_sorts_by_page_and_reading_order() {
    let mut p2 = elem(ParsedElementType::Paragraph, "second page", 1, 10_000);
    p2.page_number = 2;
    p2.reading_order = 5;
    let mut late = elem(ParsedElementType::Paragraph, "world", 1, 10_000);
    late.reading_order = 3;
    let mut early = elem(ParsedElementType::Paragraph, "hello", 1, 10_000);
    early.reading_order = 1;
    let out = cluster_paragraphs(&vec![p2, late, early]).unwrap();
    assert_eq!(out.len(), 2);
    assert_eq!(out[0].text, "hello world");
    assert_eq!(out[0].page_number, 1);
    assert_eq!(out[0].reading_order, 1);
    assert_eq!(out[1].text, "second page");
}

#[test]
fn size_enforcer_splits_long_text() {
    let mut e = elem(ParsedElementType::Paragraph, "alpha beta gamma delta", 1, 10_000);
    e.bounding_box = bx(0, 0, 50_000, 22_000);
    e.token_count = 22;
    let cfg = SizeEnforcerConfig { enabled: true, max_size: 10, split_direction: SplitDirection::Vertical };
    let parts = split_element(&e, &cfg);
    let joined: String = parts.iter().map(|p| p.text.as_str()).collect();
    assert_eq!(joined, "alpha beta gamma delta");
    assert_eq!(parts[0].text, "alpha ");
    assert!(parts.iter().all(|p| p.text.chars().count() <= 10));
    let tokens: usize = parts.iter().map(|p| p.token_count).sum();
    assert_eq!(tokens, 22);
    assert_eq!(parts[0].bounding_box.y, 0);
    let last = parts.last().unwrap();
    assert_eq!(last.bounding_box.y + last.bounding_box.height, 22_000);
    let short = split_element(&elem(ParsedElementType::Paragraph, "tiny", 1, 10_000), &cfg);
    assert_eq!(short.len(), 1);
    assert_eq!(short[0].text, "tiny");
}

#[test]
fn heading_length_counts_bytes() {
    // two 2-byte characters make 4 bytes: long enough for a bold heading
    let mut v = vec![];
    let mut h = elem(ParsedElementType::Paragraph, "\u{e9}\u{e9}", 1, 16_000);
    h.style_info.font_weight = "bold".to_string();
    v.push(h);
    for _ in 0..5 {
        v.push(elem(ParsedElementType::Paragraph, "body text here", 1, 10_000));
    }
    let a = analyze_font_sizes(&v);
    let out = detect_sections(&v, &a, &SectionAndHierarchyConfig::default());
    assert_eq!(out[0].element_type, ParsedElementType::Section);
}

#[test]
fn size_enforcer_pass_in_pipeline() {
    let mut cfg = ParsingConfig::default();
    cfg.size_enforcer.max_size = 8;
    cfg.pipeline.rules = vec![RuleConfig { name: "SizeEnforcer".to_string(), enabled: true }];
    let v = vec![elem(ParsedElementType::Paragraph, "one two three four", 1, 10_000)];
    let out = run_passes(v, &cfg).unwrap();
    assert!(out.len() > 1);
    let joined: String = out.iter().map(|p| p.text.as_str()).collect();
    assert_eq!(joined, "one two three four");
}
