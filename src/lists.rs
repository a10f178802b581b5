//! The validation battery of list detection: checks that a run of
//! candidate items really is a list.
use vstd::prelude::*;
use crate::config::{HyphenContextConfig, HyphenStrategy, ListValidationConfig, MathematicalContextConfig, SequentialNumberingConfig};
use crate::numbers::{all_digits, digits_value, is_digit};
use crate::text::{contains_seq, contains_text, lower_seq, trim_spec, trim_text, ascii_lower_char, push_char};
use crate::types::ParsedPdfElement;
use crate::xhtml::{captures_all, regex_groups};
use vstd::string::StrSliceExecFns;

verus! {

/// The length of the run of digits at the start of `t`.
pub open spec fn digit_run(t: Seq<char>, from: int) -> int
    decreases t.len() - from,
{
    if from < 0 || from >= t.len() || !is_digit(t[from]) {
        0
    } else {
        1 + digit_run(t, from + 1)
    }
}

/// `t` opens with `digits.` or `digits)`: the digits.
pub open spec fn numbered_marker(t: Seq<char>) -> Option<Seq<char>> {
    let n = digit_run(t, 0);
    if n > 0 && n < t.len() && (t[n] == '.' || t[n] == ')') {
        Some(t.take(n))
    } else {
        None
    }
}

/// `t` opens with `(digits)`: the digits.
pub open spec fn paren_marker(t: Seq<char>) -> Option<Seq<char>> {
    let n = digit_run(t, 1);
    if t.len() > 0 && t[0] == '(' && n > 0 && n + 1 < t.len() && t[n + 1] == ')' {
        Some(t.subrange(1, n + 1))
    } else {
        None
    }
}

pub open spec fn is_ascii_letter(c: char) -> bool {
    ('a' <= c && c <= 'z') || ('A' <= c && c <= 'Z')
}

/// `t` opens with a letter and `.` or `)`: the letter.
pub open spec fn letter_marker(t: Seq<char>) -> Option<char> {
    if t.len() >= 2 && is_ascii_letter(t[0]) && (t[1] == '.' || t[1] == ')') {
        Some(t[0])
    } else {
        None
    }
}

pub open spec fn is_roman(c: char) -> bool {
    c == 'i' || c == 'v' || c == 'x' || c == 'I' || c == 'V' || c == 'X'
}

/// The length of the run of roman-numeral letters at the start of `t`.
pub open spec fn roman_run(t: Seq<char>, from: int) -> int
    decreases t.len() - from,
{
    if from < 0 || from >= t.len() || !is_roman(t[from]) {
        0
    } else {
        1 + roman_run(t, from + 1)
    }
}

/// `t` opens with roman-numeral letters and `.` or `)`: the letters.
pub open spec fn roman_marker(t: Seq<char>) -> Option<Seq<char>> {
    let n = roman_run(t, 0);
    if n > 0 && n < t.len() && (t[n] == '.' || t[n] == ')') {
        Some(t.take(n))
    } else {
        None
    }
}

/// The first marker of the trimmed text names the first value of its kind:
/// 1, (1), a or A, i or I; text without a marker passes.
pub open spec fn spec_starts_with_first_value(text: Seq<char>) -> bool {
    let t = trim_spec(text);
    match numbered_marker(t) {
        Some(d) => d == "1"@,
        None => match paren_marker(t) {
            Some(d) => d == "1"@,
            None => match letter_marker(t) {
                Some(c) => c == 'a' || c == 'A',
                None => match roman_marker(t) {
                    Some(r) => r == "i"@ || r == "I"@,
                    None => true,
                },
            },
        },
    }
}

fn run_char(c: char, roman: bool) -> (r: bool)
    ensures
        r == if roman { is_roman(c) } else { is_digit(c) },
{
    if roman {
        c == 'i' || c == 'v' || c == 'x' || c == 'I' || c == 'V' || c == 'X'
    } else {
        '0' <= c && c <= '9'
    }
}

fn run_length(t: &str, from: usize, roman: bool) -> (r: usize)
    requires
        from <= t@.len(),
    ensures
        r == if roman { roman_run(t@, from as int) } else { digit_run(t@, from as int) },
        from + r <= t@.len(),
{
    let n = t.unicode_len();
    let mut k: usize = from;
    while k < n && run_char(t.get_char(k), roman)
        invariant
            from <= k <= n == t@.len(),
            (if roman { roman_run(t@, from as int) } else { digit_run(t@, from as int) }) == (k - from) + (if roman { roman_run(t@, k as int) } else { digit_run(t@, k as int) }),
        decreases n - k,
    {
        k = k + 1;
    }
    k - from
}

fn numbered_of(t: &str) -> (r: Option<String>)
    ensures
        opt_chars(r) == numbered_marker(t@),
{
    let n = t.unicode_len();
    let d = run_length(t, 0, false);
    if d > 0 && d < n && (t.get_char(d) == '.' || t.get_char(d) == ')') {
        Some(String::from_str(t.substring_char(0, d)))
    } else {
        None
    }
}

fn paren_of(t: &str) -> (r: Option<String>)
    ensures
        opt_chars(r) == paren_marker(t@),
{
    let n = t.unicode_len();
    if n == 0 || t.get_char(0) != '(' {
        return None;
    }
    let d = run_length(t, 1, false);
    if d > 0 && d + 1 < n && t.get_char(d + 1) == ')' {
        Some(String::from_str(t.substring_char(1, d + 1)))
    } else {
        None
    }
}

fn letter_of(t: &str) -> (r: Option<char>)
    ensures
        r == letter_marker(t@),
{
    let n = t.unicode_len();
    if n >= 2 {
        let c = t.get_char(0);
        let p = t.get_char(1);
        if (('a' <= c && c <= 'z') || ('A' <= c && c <= 'Z')) && (p == '.' || p == ')') {
            return Some(c);
        }
    }
    None
}

fn roman_of(t: &str) -> (r: Option<String>)
    ensures
        opt_chars(r) == roman_marker(t@),
{
    let n = t.unicode_len();
    let d = run_length(t, 0, true);
    if d > 0 && d < n && (t.get_char(d) == '.' || t.get_char(d) == ')') {
        Some(String::from_str(t.substring_char(0, d)))
    } else {
        None
    }
}

pub open spec fn opt_chars(o: Option<String>) -> Option<Seq<char>> {
    match o {
        Some(s) => Some(s@),
        None => None,
    }
}

/// Whether the text's marker names the first value of its kind.
pub fn starts_with_first_value(text: &str) -> (r: bool)
    ensures
        r == spec_starts_with_first_value(text@),
{
    let t = trim_text(text);
    let ts = t.as_str();
    match numbered_of(ts) {
        Some(d) => crate::text::str_eq(d.as_str(), "1"),
        None => match paren_of(ts) {
            Some(d) => crate::text::str_eq(d.as_str(), "1"),
            None => match letter_of(ts) {
                Some(c) => c == 'a' || c == 'A',
                None => match roman_of(ts) {
                    Some(r) => crate::text::str_eq(r.as_str(), "i") || crate::text::str_eq(r.as_str(), "I"),
                    None => true,
                },
            },
        },
    }
}

/// The number a trimmed item text opens with: `n.`, `n)`, `(n)`, or (when
/// letters are allowed) a letter counted from a/A = 1. Digits that do not
/// fit in `u32` give none.
pub open spec fn spec_number_of(t: Seq<char>, letters: bool) -> Option<u32> {
    match numbered_marker(t) {
        Some(d) => if digits_value(d) <= u32::MAX { Some(digits_value(d) as u32) } else { None },
        None => match paren_marker(t) {
            Some(d) => if digits_value(d) <= u32::MAX { Some(digits_value(d) as u32) } else { None },
            None => if letters && letter_marker(t) is Some {
                let c = letter_marker(t)->0;
                Some(if 'a' <= c && c <= 'z' { (c as u32 - 'a' as u32 + 1) as u32 } else { (c as u32 - 'A' as u32 + 1) as u32 })
            } else {
                None
            },
        },
    }
}

proof fn lemma_run_digits(t: Seq<char>, from: int)
    requires
        0 <= from <= t.len(),
    ensures
        digit_run(t, from) >= 0,
        all_digits(t.subrange(from, from + digit_run(t, from))),
        from + digit_run(t, from) <= t.len(),
    decreases t.len() - from,
{
    if from < t.len() && is_digit(t[from]) {
        lemma_run_digits(t, from + 1);
        assert(digit_run(t, from) == 1 + digit_run(t, from + 1));
        assert(t.subrange(from, from + digit_run(t, from))[0] == t[from]);
        assert forall|i: int| 0 <= i < digit_run(t, from) implies is_digit(#[trigger] t.subrange(from, from + digit_run(t, from))[i]) by {
            if i > 0 {
                assert(t.subrange(from, from + digit_run(t, from))[i] == t.subrange(from + 1, from + 1 + digit_run(t, from + 1))[i - 1]);
            }
        }
    } else {
        assert(digit_run(t, from) == 0);
        assert(t.subrange(from, from).len() == 0);
    }
}

/// Reads a run of digits into `u32`, `None` when it does not fit.
fn digits_u32(s: &str) -> (r: Option<u32>)
    requires
        all_digits(s@),
    ensures
        r == (if digits_value(s@) <= u32::MAX { Some(digits_value(s@) as u32) } else { None::<u32> }),
{
    let n = s.unicode_len();
    let mut v: u64 = 0;
    let mut i: usize = 0;
    while i < n
        invariant
            n == s@.len(),
            i <= n,
            all_digits(s@),
            v == digits_value(s@.take(i as int)),
            v <= u32::MAX,
        decreases n - i,
    {
        let c = s.get_char(i);
        assert(s@.take(i + 1).drop_last() =~= s@.take(i as int));
        assert(is_digit(s@[i as int]));
        let nv = v * 10 + ((c as u32) - ('0' as u32)) as u64;
        if nv > 0xffff_ffff {
            proof {
                lemma_digits_prefix_mono(s@, i + 1);
            }
            return None;
        }
        v = nv;
        i = i + 1;
    }
    assert(s@.take(n as int) =~= s@);
    Some(v as u32)
}

proof fn lemma_digits_prefix_mono(s: Seq<char>, i: int)
    requires
        all_digits(s),
        0 <= i <= s.len(),
    ensures
        digits_value(s.take(i)) <= digits_value(s),
    decreases s.len() - i,
{
    if i < s.len() {
        lemma_digits_prefix_mono(s, i + 1);
        assert(s.take(i + 1).drop_last() =~= s.take(i));
        assert(is_digit(s[i]));
        assert(digits_value(s.take(i)) >= 0) by {
            lemma_digits_nonneg(s.take(i));
        }
    } else {
        assert(s.take(i) =~= s);
    }
}

proof fn lemma_digits_nonneg(s: Seq<char>)
    requires
        all_digits(s),
    ensures
        digits_value(s) >= 0,
    decreases s.len(),
{
    if s.len() > 0 {
        assert(all_digits(s.drop_last())) by {
            assert forall|i: int| 0 <= i < s.drop_last().len() implies is_digit(#[trigger] s.drop_last()[i]) by {
                assert(s.drop_last()[i] == s[i]);
            }
        }
        lemma_digits_nonneg(s.drop_last());
        assert(is_digit(s[s.len() - 1]));
    }
}

/// The number an item text (already trimmed) opens with.
pub fn extract_number_from_text(t: &str, cfg: &SequentialNumberingConfig) -> (r: Option<u32>)
    ensures
        r == spec_number_of(t@, cfg.allow_letter_sequences),
{
    match numbered_of(t) {
        Some(d) => {
            proof {
                lemma_run_digits(t@, 0);
                assert(d@ =~= t@.subrange(0, digit_run(t@, 0)));
            }
            return digits_u32(d.as_str());
        },
        None => {},
    }
    match paren_of(t) {
        Some(d) => {
            proof {
                lemma_run_digits(t@, 1);
            }
            return digits_u32(d.as_str());
        },
        None => {},
    }
    if cfg.allow_letter_sequences {
        match letter_of(t) {
            Some(c) => {
                if 'a' <= c && c <= 'z' {
                    return Some((c as u32) - ('a' as u32) + 1);
                } else {
                    return Some((c as u32) - ('A' as u32) + 1);
                }
            },
            None => {},
        }
    }
    None
}

/// The numbers the items open with, in order, items without one skipped.
pub open spec fn numbers_of(items: Seq<ParsedPdfElement>, letters: bool) -> Seq<u32>
    decreases items.len(),
{
    if items.len() == 0 {
        Seq::empty()
    } else {
        let s = numbers_of(items.drop_last(), letters);
        match spec_number_of(trim_spec(items.last().text@), letters) {
            Some(v) => s.push(v),
            None => s,
        }
    }
}

pub fn extract_numbers(items: &Vec<ParsedPdfElement>, cfg: &SequentialNumberingConfig) -> (r: Vec<u32>)
    ensures
        r@ == numbers_of(items@, cfg.allow_letter_sequences),
{
    let mut out: Vec<u32> = Vec::new();
    let mut i: usize = 0;
    while i < items.len()
        invariant
            i <= items@.len(),
            out@ == numbers_of(items@.take(i as int), cfg.allow_letter_sequences),
        decreases items@.len() - i,
    {
        assert(items@.take(i + 1).drop_last() =~= items@.take(i as int));
        assert(items@.take(i + 1).last() == items@[i as int]);
        let t = trim_text(items[i].text.as_str());
        match extract_number_from_text(t.as_str(), cfg) {
            Some(v) => out.push(v),
            None => {},
        }
        i = i + 1;
    }
    assert(items@.take(items@.len() as int) =~= items@);
    out
}

/// At most one number, or a run from 1 in which each number exceeds its
/// predecessor's successor by at most the tolerance.
pub open spec fn spec_is_sequential(ns: Seq<u32>, tol: u32) -> bool {
    ns.len() <= 1 || (ns[0] == 1 && forall|i: int| 1 <= i < ns.len() ==> (#[trigger] ns[i]) as int - (ns[i - 1] as int + 1) <= tol as int)
}

pub fn is_sequential_sequence(numbers: &Vec<u32>, cfg: &SequentialNumberingConfig) -> (r: bool)
    ensures
        r == spec_is_sequential(numbers@, cfg.max_gap_tolerance),
{
    let n = numbers.len();
    if n <= 1 {
        return true;
    }
    if numbers[0] != 1 {
        return false;
    }
    let mut i: usize = 1;
    while i < n
        invariant
            n == numbers@.len(),
            1 <= i <= n,
            forall|k: int| 1 <= k < i ==> (#[trigger] numbers@[k]) as int - (numbers@[k - 1] as int + 1) <= cfg.max_gap_tolerance as int,
        decreases n - i,
    {
        let expected = numbers[i - 1] as u64 + 1;
        let actual = numbers[i] as u64;
        let gap = if actual > expected { actual - expected } else { 0 };
        if gap > cfg.max_gap_tolerance as u64 {
            return false;
        }
        i = i + 1;
    }
    true
}

/// Some configured symbol occurs in the text.
pub open spec fn spec_has_math_symbol(text: Seq<char>, cfg: MathematicalContextConfig) -> bool {
    exists|k: int| 0 <= k < cfg.symbols@.len() && contains_seq(text, #[trigger] cfg.symbols@[k]@)
}

pub fn contains_mathematical_symbols(text: &str, cfg: &MathematicalContextConfig) -> (r: bool)
    ensures
        r == spec_has_math_symbol(text@, *cfg),
{
    let mut k: usize = 0;
    while k < cfg.symbols.len()
        invariant
            k <= cfg.symbols@.len(),
            forall|j: int| 0 <= j < k ==> !contains_seq(text@, #[trigger] cfg.symbols@[j]@),
        decreases cfg.symbols@.len() - k,
    {
        if contains_text(text, cfg.symbols[k].as_str()) {
            return true;
        }
        k = k + 1;
    }
    false
}

/// The text matches one of the notation patterns.
pub open spec fn spec_has_notation(text: Seq<char>) -> bool {
    regex_groups(r"\w+\^\w+"@, text).len() > 0 || regex_groups(r"\w+_\w+"@, text).len() > 0
        || regex_groups(r"[α-ω]"@, text).len() > 0 || regex_groups(r"\b[xy]\s*="@, text).len() > 0
        || regex_groups(r"\d+\s*="@, text).len() > 0
}

pub fn contains_mathematical_notation(text: &str) -> (r: bool)
    ensures
        r == spec_has_notation(text@),
{
    captures_all(r"\w+\^\w+", text).len() > 0 || captures_all(r"\w+_\w+", text).len() > 0
        || captures_all(r"[α-ω]", text).len() > 0 || captures_all(r"\b[xy]\s*=", text).len() > 0
        || captures_all(r"\d+\s*=", text).len() > 0
}

fn lower_text(s: &str) -> (r: String)
    ensures
        r@ == lower_seq(s@),
{
    let n = s.unicode_len();
    let mut out = String::new();
    let mut i: usize = 0;
    while i < n
        invariant
            n == s@.len(),
            i <= n,
            out@ == lower_seq(s@.take(i as int)),
        decreases n - i,
    {
        push_char(&mut out, ascii_lower_char(s.get_char(i)));
        assert(lower_seq(s@.take(i + 1)) =~= lower_seq(s@.take(i as int)).push(crate::text::ascii_lower(s@[i as int])));
        i = i + 1;
    }
    assert(s@.take(n as int) =~= s@);
    out
}

/// Some item, folded to lower case, names a mathematical term or shows
/// mathematical notation.
pub open spec fn spec_math_context(items: Seq<ParsedPdfElement>, cfg: MathematicalContextConfig) -> bool {
    exists|i: int| 0 <= i < items.len() && item_is_math(#[trigger] items[i], cfg)
}

pub open spec fn item_is_math(e: ParsedPdfElement, cfg: MathematicalContextConfig) -> bool {
    let t = lower_seq(e.text@);
    (exists|k: int| 0 <= k < cfg.terms@.len() && contains_seq(t, #[trigger] cfg.terms@[k]@)) || spec_has_notation(t)
}

fn contains_any(t: &str, terms: &Vec<String>) -> (r: bool)
    ensures
        r == exists|j: int| 0 <= j < terms@.len() && contains_seq(t@, #[trigger] terms@[j]@),
{
    let mut k: usize = 0;
    while k < terms.len()
        invariant
            k <= terms@.len(),
            forall|j: int| 0 <= j < k ==> !contains_seq(t@, #[trigger] terms@[j]@),
        decreases terms@.len() - k,
    {
        if contains_text(t, terms[k].as_str()) {
            return true;
        }
        k = k + 1;
    }
    false
}

pub fn is_mathematical_context(items: &Vec<ParsedPdfElement>, cfg: &MathematicalContextConfig) -> (r: bool)
    ensures
        r == spec_math_context(items@, *cfg),
{
    let mut i: usize = 0;
    while i < items.len()
        invariant
            i <= items@.len(),
            forall|j: int| 0 <= j < i ==> !item_is_math(#[trigger] items@[j], *cfg),
        decreases items@.len() - i,
    {
        let t = lower_text(items[i].text.as_str());
        let hit = contains_any(t.as_str(), &cfg.terms);
        if hit || contains_mathematical_notation(t.as_str()) {
            assert(item_is_math(items@[i as int], *cfg));
            return true;
        }
        i = i + 1;
    }
    false
}

/// The trimmed text starts with '-'.
pub open spec fn spec_starts_with_hyphen(text: Seq<char>) -> bool {
    let t = trim_spec(text);
    t.len() > 0 && t[0] == '-'
}

pub fn starts_with_hyphen(text: &str) -> (r: bool)
    ensures
        r == spec_starts_with_hyphen(text@),
{
    let t = trim_text(text);
    t.as_str().unicode_len() > 0 && t.as_str().get_char(0) == '-'
}

/// Around its first hyphen the text has letters on both sides (a
/// hyphenated word).
pub open spec fn spec_word_continuation(text: Seq<char>) -> bool {
    let p = crate::numbers::index_of(text, '-');
    p >= 0 && (exists|i: int| 0 <= i < p && is_ascii_letter(#[trigger] text[i])) && (exists|j: int| p < j < text.len() && is_ascii_letter(#[trigger] text[j]))
}

#[verifier::rlimit(60)]
pub fn looks_like_word_continuation(text: &str) -> (r: bool)
    ensures
        r == spec_word_continuation(text@),
{
    proof {
        crate::numbers::lemma_index_of(text@, '-');
    }
    let n = text.unicode_len();
    let mut p: usize = 0;
    while p < n && text.get_char(p) != '-'
        invariant
            p <= n == text@.len(),
            forall|k: int| 0 <= k < p ==> text@[k] != '-',
        decreases n - p,
    {
        p = p + 1;
    }
    if p == n {
        proof {
            if crate::numbers::index_of(text@, '-') >= 0 {
                assert(text@[crate::numbers::index_of(text@, '-')] == '-');
            }
        }
        return false;
    }
    proof {
        let q = crate::numbers::index_of(text@, '-');
        if q < 0 || q > p {
            assert(text@[p as int] == '-');
        }
        if q >= 0 && q < p {
            assert(text@[q] == '-');
        }
    }
    let mut before = false;
    let mut i: usize = 0;
    while i < p
        invariant
            p < n == text@.len(),
            i <= p,
            before <==> exists|k: int| 0 <= k < i && is_ascii_letter(#[trigger] text@[k]),
        decreases p - i,
    {
        let c = text.get_char(i);
        if ('a' <= c && c <= 'z') || ('A' <= c && c <= 'Z') {
            before = true;
        }
        i = i + 1;
    }
    let mut after = false;
    let mut j: usize = p + 1;
    while j < n
        invariant
            p < n == text@.len(),
            p + 1 <= j <= n,
            after <==> exists|k: int| p < k < j && is_ascii_letter(#[trigger] text@[k]),
        decreases n - j,
    {
        let c = text.get_char(j);
        if ('a' <= c && c <= 'z') || ('A' <= c && c <= 'Z') {
            after = true;
        }
        j = j + 1;
    }
    before && after
}

/// A minus sign before a number: `-` and a digit, spaces between.
pub open spec fn spec_math_minus(text: Seq<char>) -> bool {
    regex_groups(r"-\s*\d"@, text).len() > 0
}

pub fn looks_like_mathematical_minus(text: &str) -> (r: bool)
    ensures
        r == spec_math_minus(text@),
{
    captures_all(r"-\s*\d", text).len() > 0
}

/// What the hyphen rule decides for hyphen-led items.
pub open spec fn spec_hyphen_ok(items: Seq<ParsedPdfElement>, cfg: HyphenContextConfig) -> bool {
    match cfg.strategy {
        HyphenStrategy::Reject => false,
        HyphenStrategy::Strict => forall|i: int| 0 <= i < items.len() ==> strict_item_ok(#[trigger] items[i], cfg),
        HyphenStrategy::ContextAware => forall|i: int| 0 <= i < items.len() ==> !spec_word_continuation((#[trigger] items[i]).text@) && !spec_math_minus(items[i].text@),
        HyphenStrategy::Permissive => true,
    }
}

pub open spec fn strict_item_ok(e: ParsedPdfElement, cfg: HyphenContextConfig) -> bool {
    let t = trim_spec(e.text@);
    let lead = if cfg.require_space_after {
        t.len() >= 2 && t[0] == '-' && t[1] == ' '
    } else {
        t.len() >= 1 && t[0] == '-'
    };
    lead && !spec_word_continuation(e.text@) && !spec_math_minus(e.text@)
}

#[verifier::rlimit(60)]
pub fn validate_hyphen_context(items: &Vec<ParsedPdfElement>, cfg: &HyphenContextConfig) -> (r: bool)
    ensures
        r == spec_hyphen_ok(items@, *cfg),
{
    match cfg.strategy {
        HyphenStrategy::Reject => false,
        HyphenStrategy::Permissive => true,
        HyphenStrategy::Strict => {
            let mut i: usize = 0;
            while i < items.len()
                invariant
                    cfg.strategy == HyphenStrategy::Strict,
                    i <= items@.len(),
                    forall|j: int| 0 <= j < i ==> strict_item_ok(#[trigger] items@[j], *cfg),
                decreases items@.len() - i,
            {
                let t = trim_text(items[i].text.as_str());
                let ts = t.as_str();
                let n = ts.unicode_len();
                let lead = if cfg.require_space_after {
                    n >= 2 && ts.get_char(0) == '-' && ts.get_char(1) == ' '
                } else {
                    n >= 1 && ts.get_char(0) == '-'
                };
                if !lead || looks_like_word_continuation(items[i].text.as_str()) || looks_like_mathematical_minus(items[i].text.as_str()) {
                    assert(!strict_item_ok(items@[i as int], *cfg));
                    return false;
                }
                i = i + 1;
            }
            true
        },
        HyphenStrategy::ContextAware => {
            let mut i: usize = 0;
            while i < items.len()
                invariant
                    cfg.strategy == HyphenStrategy::ContextAware,
                    i <= items@.len(),
                    forall|j: int| 0 <= j < i ==> !spec_word_continuation((#[trigger] items@[j]).text@) && !spec_math_minus(items@[j].text@),
                decreases items@.len() - i,
            {
                if looks_like_word_continuation(items[i].text.as_str()) || looks_like_mathematical_minus(items[i].text.as_str()) {
                    return false;
                }
                i = i + 1;
            }
            true
        },
    }
}

/// Some item uses `(n)` numbering.
pub open spec fn spec_has_parenthetical(items: Seq<ParsedPdfElement>) -> bool {
    exists|i: int| 0 <= i < items.len() && paren_marker(trim_spec((#[trigger] items[i]).text@)) is Some
}

/// The verdict of the enabled checks, applied in order.
pub open spec fn spec_validate_list(items: Seq<ParsedPdfElement>, cfg: ListValidationConfig) -> bool {
    let numbers = numbers_of(items, cfg.sequential_numbering.allow_letter_sequences);
    let math = exists|i: int| 0 <= i < items.len() && spec_has_math_symbol((#[trigger] items[i]).text@, cfg.mathematical_context);
    let hyphen = exists|i: int| 0 <= i < items.len() && spec_starts_with_hyphen((#[trigger] items[i]).text@);
    !cfg.enabled || {
        &&& !cfg.minimum_size_check || items.len() > 1
        &&& !cfg.first_item_validation || (items.len() > 0 && spec_starts_with_first_value(items[0].text@))
        &&& !cfg.parenthetical_context_check || !spec_has_parenthetical(items) || (items.len() > 0 && paren_marker(trim_spec(items[0].text@)) == Some("1"@))
        &&& !cfg.sequential_numbering_check || numbers.len() == 0 || spec_is_sequential(numbers, cfg.sequential_numbering.max_gap_tolerance)
        &&& !cfg.mathematical_context_check || !math || !spec_math_context(items, cfg.mathematical_context)
        &&& !cfg.hyphen_context_check || !hyphen || spec_hyphen_ok(items, cfg.hyphen_context)
    }
}

/// Whether the candidate items form a list under every enabled check.
#[verifier::rlimit(60)]
pub fn validate_list(items: &Vec<ParsedPdfElement>, cfg: &ListValidationConfig) -> (r: bool)
    ensures
        r == spec_validate_list(items@, *cfg),
{
    if !cfg.enabled {
        return true;
    }
    if cfg.minimum_size_check && items.len() <= 1 {
        return false;
    }
    if cfg.first_item_validation {
        if items.len() == 0 || !starts_with_first_value(items[0].text.as_str()) {
            return false;
        }
    }
    if cfg.parenthetical_context_check {
        let mut any = false;
        let mut i: usize = 0;
        while i < items.len()
            invariant
                i <= items@.len(),
                any <==> exists|j: int| 0 <= j < i && paren_marker(trim_spec((#[trigger] items@[j]).text@)) is Some,
            decreases items@.len() - i,
        {
            let t = trim_text(items[i].text.as_str());
            if paren_of(t.as_str()).is_some() {
                any = true;
            }
            i = i + 1;
        }
        if any {
            if items.len() == 0 {
                return false;
            }
            let t = trim_text(items[0].text.as_str());
            match paren_of(t.as_str()) {
                Some(d) => {
                    if !crate::text::str_eq(d.as_str(), "1") {
                        return false;
                    }
                },
                None => {
                    return false;
                },
            }
        }
    }
    if cfg.sequential_numbering_check {
        let numbers = extract_numbers(items, &cfg.sequential_numbering);
        if numbers.len() > 0 && !is_sequential_sequence(&numbers, &cfg.sequential_numbering) {
            return false;
        }
    }
    if cfg.mathematical_context_check {
        let mut any = false;
        let mut i: usize = 0;
        while i < items.len()
            invariant
                i <= items@.len(),
                any <==> exists|j: int| 0 <= j < i && spec_has_math_symbol((#[trigger] items@[j]).text@, cfg.mathematical_context),
            decreases items@.len() - i,
        {
            if contains_mathematical_symbols(items[i].text.as_str(), &cfg.mathematical_context) {
                any = true;
            }
            i = i + 1;
        }
        if any && is_mathematical_context(items, &cfg.mathematical_context) {
            return false;
        }
    }
    if cfg.hyphen_context_check {
        let mut any = false;
        let mut i: usize = 0;
        while i < items.len()
            invariant
                i <= items@.len(),
                any <==> exists|j: int| 0 <= j < i && spec_starts_with_hyphen((#[trigger] items@[j]).text@),
            decreases items@.len() - i,
        {
            if starts_with_hyphen(items[i].text.as_str()) {
                any = true;
            }
            i = i + 1;
        }
        if any && !validate_hyphen_context(items, &cfg.hyphen_context) {
            return false;
        }
    }
    true
}

} // verus!
