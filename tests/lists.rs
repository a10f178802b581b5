use blazegraph::config::{HyphenContextConfig, HyphenStrategy, ListValidationConfig, MathematicalContextConfig, SequentialNumberingConfig};
use blazegraph::geometry::BoundingBox;
use blazegraph::lists::{
    contains_mathematical_symbols, extract_numbers, is_mathematical_context, is_sequential_sequence,
    looks_like_mathematical_minus, looks_like_word_continuation, starts_with_first_value,
    starts_with_hyphen, validate_hyphen_context, validate_list,
};
use blazegraph::types::{FontClass, ParsedElementType, ParsedPdfElement};

fn item(text: &str) -> ParsedPdfElement {
    ParsedPdfElement {
        element_type: ParsedElementType::Paragraph,
        text: text.to_string(),
        hierarchy_level: 1,
        position: 0,
        style_info: FontClass {
            class_name: "f1".to_string(),
            font_family: "Serif".to_string(),
            font_size: 10_000,
            font_style: "normal".to_string(),
            font_weight: "normal".to_string(),
            color: "#000000".to_string(),
        },
        bounding_box: BoundingBox { x: 0, y: 0, width: 1, height: 1 },
        page_number: 1,
        paragraph_number: 0,
        reading_order: 0,
        bookmark_match: None,
        token_count: 1,
    }
}

#[test]
fn first_item_markers() {
    assert!(starts_with_first_value("1. Start"));
    assert!(!starts_with_first_value("2) Later"));
    assert!(starts_with_first_value(" (1) First"));
    assert!(!starts_with_first_value("(3) Third"));
    assert!(starts_with_first_value("a) alpha"));
    assert!(!starts_with_first_value("c. gamma"));
    assert!(starts_with_first_value("II. continued") == false);
    assert!(starts_with_first_value("- bullet"));
}

#[test]
fn numbers_from_markers() {
    let cfg = SequentialNumberingConfig::default();
    let items = vec![item("1. one"), item("(2) two"), item("c) three"), item("plain")];
    assert_eq!(extract_numbers(&items, &cfg), vec![1, 2, 3]);
    let no_letters = SequentialNumberingConfig { allow_letter_sequences: false, max_gap_tolerance: 0 };
    assert_eq!(extract_numbers(&items, &no_letters), vec![1, 2]);
    let huge = vec![item("99999999999. x")];
    assert!(extract_numbers(&huge, &cfg).is_empty());
}

#[test]
fn sequences_with_gaps() {
    let strict = SequentialNumberingConfig::default();
    assert!(is_sequential_sequence(&vec![1, 2, 3], &strict));
    assert!(!is_sequential_sequence(&vec![1, 3], &strict));
    assert!(!is_sequential_sequence(&vec![2, 3], &strict));
    assert!(is_sequential_sequence(&vec![5], &strict));
    let loose = SequentialNumberingConfig { allow_letter_sequences: true, max_gap_tolerance: 1 };
    assert!(is_sequential_sequence(&vec![1, 3], &loose));
    assert!(is_sequential_sequence(&vec![1, 1], &strict));
}

#[test]
fn mathematical_context_detection() {
    let cfg = MathematicalContextConfig::default();
    assert!(contains_mathematical_symbols("a \u{2192} b", &cfg));
    assert!(!contains_mathematical_symbols("a to b", &cfg));
    assert!(is_mathematical_context(&vec![item("Solve the Equation")], &cfg));
    assert!(is_mathematical_context(&vec![item("x = 3")], &cfg));
    assert!(is_mathematical_context(&vec![item("x^2 grows")], &cfg));
    assert!(!is_mathematical_context(&vec![item("plain words")], &cfg));
}

#[test]
fn hyphen_rules() {
    assert!(starts_with_hyphen("  - item"));
    assert!(!starts_with_hyphen("item - x"));
    assert!(looks_like_word_continuation("well-known"));
    assert!(!looks_like_word_continuation("- item"));
    assert!(looks_like_mathematical_minus("x - 5"));
    assert!(!looks_like_mathematical_minus("- item"));
    let strict = HyphenContextConfig::default();
    assert!(validate_hyphen_context(&vec![item("- one"), item("- two")], &strict));
    assert!(!validate_hyphen_context(&vec![item("-one")], &strict));
    assert!(!validate_hyphen_context(&vec![item("- 5 apples")], &strict));
    let reject = HyphenContextConfig { strategy: HyphenStrategy::Reject, require_space_after: true };
    assert!(!validate_hyphen_context(&vec![item("- one")], &reject));
    let aware = HyphenContextConfig { strategy: HyphenStrategy::ContextAware, require_space_after: true };
    assert!(validate_hyphen_context(&vec![item("- a well-known item")], &aware));
    assert!(!validate_hyphen_context(&vec![item("well-known item")], &aware));
}

#[test]
fn list_validator_battery() {
    let cfg = ListValidationConfig::default();
    assert!(validate_list(&vec![item("1. a"), item("2. b"), item("3. c")], &cfg));
    assert!(!validate_list(&vec![item("1. only")], &cfg));
    assert!(!validate_list(&vec![item("2. b"), item("3. c")], &cfg));
    assert!(!validate_list(&vec![item("1. a"), item("3. c")], &cfg));
    assert!(!validate_list(&vec![item("1. a"), item("(2) b")], &cfg));
    assert!(validate_list(&vec![item("- apples"), item("- pears")], &cfg));
    assert!(!validate_list(&vec![item("\u{2192} x = 1"), item("\u{2192} y = 2")], &cfg));
    let mut off = ListValidationConfig::default();
    off.enabled = false;
    assert!(validate_list(&vec![item("9. x")], &off));
}
