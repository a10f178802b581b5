//! Structural validation of an element sequence. It records issues and
//! never changes the elements.
use vstd::prelude::*;
use crate::text::{trim_spec, trim_text};
use crate::types::{ParsedElementType, ParsedPdfElement};
use vstd::string::StrSliceExecFns;

verus! {

/// One finding of validation, by element position.
#[derive(Debug, Clone, Copy, PartialEq, Eq, Structural)]
pub enum ValidationIssue {
    /// The level is deeper than the configured maximum.
    OrphanedElement { level: u32, position: usize },
    /// The level is more than one below the previous element's.
    HierarchyJump { from_level: u32, to_level: u32, from_pos: usize, to_pos: usize },
    /// The reading order leaves the window around the expected value.
    ReadingOrderInconsistency { position: usize, expected_order: u32, actual_order: u32 },
    /// The box has a negative corner or no area.
    InvalidPosition { position: usize },
    /// The page number is 0, or more than five past the previous one.
    PageInconsistency { position: usize, page: u32 },
    /// A section text shorter than 3 or longer than 200 characters.
    SuspiciousSection { position: usize },
}

/// The findings and a score in thousandths: 1000 less 1000 per issue per
/// element, never below 0 (1000 for no elements).
#[derive(Debug, Clone)]
pub struct ValidationReport {
    pub issues: Vec<ValidationIssue>,
    pub quality_score: u32,
    pub total_elements: usize,
}

/// The reading order expected at position `i`.
pub open spec fn expected_order(s: Seq<ParsedPdfElement>, i: int) -> int {
    if i == 0 {
        0
    } else {
        s[i - 1].reading_order + 1
    }
}

/// The issues of the element at position `i`, in the order the checks run.
pub open spec fn issues_at(s: Seq<ParsedPdfElement>, i: int, max_depth: u32) -> Seq<ValidationIssue> {
    let e = s[i];
    let b = e.bounding_box;
    let exp = expected_order(s, i);
    let lo = if exp >= 5 { exp - 5 } else { 0 };
    let tlen = trim_spec(e.text@).len();
    let a = if e.hierarchy_level > max_depth {
        seq![ValidationIssue::OrphanedElement { level: e.hierarchy_level, position: i as usize }]
    } else {
        seq![]
    };
    let j = if i > 0 && e.hierarchy_level > s[i - 1].hierarchy_level + 1 {
        seq![ValidationIssue::HierarchyJump { from_level: s[i - 1].hierarchy_level, to_level: e.hierarchy_level, from_pos: (i - 1) as usize, to_pos: i as usize }]
    } else {
        seq![]
    };
    let r = if e.reading_order < lo || e.reading_order > exp + 10 {
        seq![ValidationIssue::ReadingOrderInconsistency { position: i as usize, expected_order: exp as u32, actual_order: e.reading_order }]
    } else {
        seq![]
    };
    let p = if b.x < 0 || b.y < 0 || b.width <= 0 || b.height <= 0 {
        seq![ValidationIssue::InvalidPosition { position: i as usize }]
    } else {
        seq![]
    };
    let z = if e.page_number == 0 {
        seq![ValidationIssue::PageInconsistency { position: i as usize, page: 0 }]
    } else {
        seq![]
    };
    let g = if i > 0 && e.page_number > s[i - 1].page_number + 5 {
        seq![ValidationIssue::PageInconsistency { position: i as usize, page: e.page_number }]
    } else {
        seq![]
    };
    let q = if e.element_type == ParsedElementType::Section && (tlen < 3 || tlen > 200) {
        seq![ValidationIssue::SuspiciousSection { position: i as usize }]
    } else {
        seq![]
    };
    a + j + r + p + z + g + q
}

/// The issues of the first `n` elements, element by element.
pub open spec fn issues_upto(s: Seq<ParsedPdfElement>, n: nat, max_depth: u32) -> Seq<ValidationIssue>
    decreases n,
{
    if n == 0 {
        seq![]
    } else {
        issues_upto(s, (n - 1) as nat, max_depth) + issues_at(s, n - 1, max_depth)
    }
}

/// The score for `issues` findings over `total` elements, in thousandths.
pub open spec fn quality(issues: nat, total: nat) -> nat {
    if total == 0 {
        1000
    } else if issues >= total {
        0
    } else {
        ((1000 * (total - issues) as int) / (total as int)) as nat
    }
}

proof fn lemma_issues_bound(s: Seq<ParsedPdfElement>, n: nat, max_depth: u32)
    ensures
        issues_upto(s, n, max_depth).len() <= 7 * n,
    decreases n,
{
    if n > 0 {
        lemma_issues_bound(s, (n - 1) as nat, max_depth);
    }
}

/// The issues of the element at position `i`.
#[verifier::rlimit(60)]
fn element_issues(elements: &Vec<ParsedPdfElement>, i: usize, max_depth: u32) -> (r: Vec<ValidationIssue>)
    requires
        i < elements@.len(),
    ensures
        r@ == issues_at(elements@, i as int, max_depth),
{
    let ghost s = elements@;
    let e = &elements[i];
    let mut a: Vec<ValidationIssue> = Vec::new();
    if e.hierarchy_level > max_depth {
        a.push(ValidationIssue::OrphanedElement { level: e.hierarchy_level, position: i });
    }
    let mut j: Vec<ValidationIssue> = Vec::new();
    if i > 0 && e.hierarchy_level as u64 > elements[i - 1].hierarchy_level as u64 + 1 {
        j.push(
            ValidationIssue::HierarchyJump {
                from_level: elements[i - 1].hierarchy_level,
                to_level: e.hierarchy_level,
                from_pos: i - 1,
                to_pos: i,
            },
        );
    }
    let exp: u64 = if i == 0 { 0 } else { elements[i - 1].reading_order as u64 + 1 };
    let lo: u64 = if exp >= 5 { exp - 5 } else { 0 };
    let ro = e.reading_order as u64;
    let mut r: Vec<ValidationIssue> = Vec::new();
    if ro < lo || ro > exp + 10 {
        r.push(
            ValidationIssue::ReadingOrderInconsistency {
                position: i,
                expected_order: exp as u32,
                actual_order: e.reading_order,
            },
        );
    }
    let b = &e.bounding_box;
    let mut p: Vec<ValidationIssue> = Vec::new();
    if b.x < 0 || b.y < 0 || b.width <= 0 || b.height <= 0 {
        p.push(ValidationIssue::InvalidPosition { position: i });
    }
    let mut z: Vec<ValidationIssue> = Vec::new();
    if e.page_number == 0 {
        z.push(ValidationIssue::PageInconsistency { position: i, page: 0 });
    }
    let mut g: Vec<ValidationIssue> = Vec::new();
    if i > 0 && e.page_number as u64 > elements[i - 1].page_number as u64 + 5 {
        g.push(ValidationIssue::PageInconsistency { position: i, page: e.page_number });
    }
    let mut q: Vec<ValidationIssue> = Vec::new();
    if e.element_type == ParsedElementType::Section {
        let t = trim_text(e.text.as_str());
        let tlen = t.as_str().unicode_len();
        if tlen < 3 || tlen > 200 {
            q.push(ValidationIssue::SuspiciousSection { position: i });
        }
    }
    a.append(&mut j);
    a.append(&mut r);
    a.append(&mut p);
    a.append(&mut z);
    a.append(&mut g);
    a.append(&mut q);
    assert(a@ =~= issues_at(s, i as int, max_depth));
    a
}

/// Checks every element and scores the sequence.
#[verifier::rlimit(60)]
pub fn validate_structure(elements: &Vec<ParsedPdfElement>, max_depth: u32) -> (r: ValidationReport)
    ensures
        r.issues@ == issues_upto(elements@, elements@.len() as nat, max_depth),
        r.total_elements == elements@.len(),
        r.quality_score == quality(r.issues@.len(), elements@.len() as nat),
{
    let ghost s = elements@;
    let n = elements.len();
    let mut issues: Vec<ValidationIssue> = Vec::new();
    let mut i: usize = 0;
    while i < n
        invariant
            s == elements@,
            n == s.len(),
            i <= n,
            issues@ == issues_upto(s, i as nat, max_depth),
        decreases n - i,
    {
        let mut found = element_issues(elements, i, max_depth);
        issues.append(&mut found);
        i = i + 1;
    }
    proof {
        lemma_issues_bound(s, n as nat, max_depth);
    }
    let k = issues.len();
    let score: u32 = if n == 0 {
        1000
    } else if k >= n {
        0
    } else {
        let num: u128 = 1000 * ((n - k) as u128);
        let v = num / (n as u128);
        assert(v <= 1000) by (nonlinear_arith)
            requires
                v == num / (n as u128),
                num == 1000 * ((n - k) as int),
                n > k,
                n > 0,
        ;
        v as u32
    };
    ValidationReport { issues, quality_score: score, total_elements: n }
}

} // verus!
