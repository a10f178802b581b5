//! The canonical byte form of a configuration and its hash, the
//! configuration part of the graph cache key.
//!
//! Every leaf is written in order: numbers and flags as 8 little-endian
//! bytes, texts as their UTF-8 length and bytes, lists as their length and
//! items. The form is a prefix code, so two configurations that differ in
//! any leaf have different byte forms.
use vstd::prelude::*;
use vstd::utf8::{encode_utf8, encode_utf8_decode_utf8};
use crate::cache::{le_bytes, le_bytes_of, push_bytes, sha256_hex, sha256_hex_of};
use crate::config::{HyphenStrategy, ParsingConfig, RuleConfig};
use crate::types::DocumentType;
use crate::enforcer::SplitDirection;

verus! {

/// One leaf group of the byte form.
pub enum Field {
    Num(nat),
    Nums(Seq<nat>),
    Text(Seq<char>),
    Texts(Seq<Seq<char>>),
    Rules(Seq<(Seq<char>, bool)>),
}

pub open spec fn pow256(k: nat) -> nat
    decreases k,
{
    if k == 0 {
        1
    } else {
        256 * pow256((k - 1) as nat)
    }
}

pub open spec fn enc_text(s: Seq<char>) -> Seq<u8> {
    le_bytes(encode_utf8(s).len(), 8) + encode_utf8(s)
}

pub open spec fn enc_list(v: Seq<Seq<char>>) -> Seq<u8>
    decreases v.len(),
{
    if v.len() == 0 {
        Seq::empty()
    } else {
        enc_text(v[0]) + enc_list(v.drop_first())
    }
}

pub open spec fn enc_nums(v: Seq<nat>) -> Seq<u8>
    decreases v.len(),
{
    if v.len() == 0 {
        Seq::empty()
    } else {
        le_bytes(v[0], 8) + enc_nums(v.drop_first())
    }
}

pub open spec fn flag(b: bool) -> nat {
    if b { 1 } else { 0 }
}

pub open spec fn enc_rule_list(v: Seq<(Seq<char>, bool)>) -> Seq<u8>
    decreases v.len(),
{
    if v.len() == 0 {
        Seq::empty()
    } else {
        enc_text(v[0].0) + (le_bytes(flag(v[0].1), 8) + enc_rule_list(v.drop_first()))
    }
}

pub open spec fn enc_field(f: Field) -> Seq<u8> {
    match f {
        Field::Num(n) => le_bytes(n, 8),
        Field::Nums(v) => le_bytes(v.len(), 8) + enc_nums(v),
        Field::Text(s) => enc_text(s),
        Field::Texts(v) => le_bytes(v.len(), 8) + enc_list(v),
        Field::Rules(v) => le_bytes(v.len(), 8) + enc_rule_list(v),
    }
}

pub open spec fn enc_fields(fs: Seq<Field>) -> Seq<u8>
    decreases fs.len(),
{
    if fs.len() == 0 {
        Seq::empty()
    } else {
        enc_field(fs[0]) + enc_fields(fs.drop_first())
    }
}

pub open spec fn text_fits(s: Seq<char>) -> bool {
    encode_utf8(s).len() < pow256(8)
}

/// Every number and length of the field fits in 8 bytes.
pub open spec fn field_fits(f: Field) -> bool {
    match f {
        Field::Num(n) => n < pow256(8),
        Field::Nums(v) => v.len() < pow256(8) && forall|i: int| 0 <= i < v.len() ==> #[trigger] v[i] < pow256(8),
        Field::Text(s) => text_fits(s),
        Field::Texts(v) => v.len() < pow256(8) && forall|i: int| 0 <= i < v.len() ==> text_fits(#[trigger] v[i]),
        Field::Rules(v) => v.len() < pow256(8) && forall|i: int| 0 <= i < v.len() ==> text_fits((#[trigger] v[i]).0),
    }
}

pub open spec fn same_kind(a: Field, b: Field) -> bool {
    match (a, b) {
        (Field::Num(_), Field::Num(_)) => true,
        (Field::Nums(_), Field::Nums(_)) => true,
        (Field::Text(_), Field::Text(_)) => true,
        (Field::Texts(_), Field::Texts(_)) => true,
        (Field::Rules(_), Field::Rules(_)) => true,
        _ => false,
    }
}

proof fn lemma_le_len(n: nat, k: nat)
    ensures
        le_bytes(n, k).len() == k,
    decreases k,
{
    if k > 0 {
        lemma_le_len(n / 256, (k - 1) as nat);
    }
}

proof fn lemma_le_inj(n: nat, m: nat, k: nat)
    requires
        n < pow256(k),
        m < pow256(k),
        le_bytes(n, k) == le_bytes(m, k),
    ensures
        n == m,
    decreases k,
{
    if k == 0 {
    } else {
        let p = pow256((k - 1) as nat);
        lemma_le_len(n / 256, (k - 1) as nat);
        lemma_le_len(m / 256, (k - 1) as nat);
        assert(le_bytes(n, k)[0] == le_bytes(m, k)[0]);
        assert(le_bytes(n / 256, (k - 1) as nat) == le_bytes(n, k).drop_first());
        assert(le_bytes(m / 256, (k - 1) as nat) == le_bytes(m, k).drop_first());
        assert(n / 256 < p) by (nonlinear_arith)
            requires
                n < 256 * p,
        ;
        assert(m / 256 < p) by (nonlinear_arith)
            requires
                m < 256 * p,
        ;
        lemma_le_inj(n / 256, m / 256, (k - 1) as nat);
        assert(le_bytes(n, k)[0] == (n % 256) as u8);
        assert(le_bytes(m, k)[0] == (m % 256) as u8);
        assert(n % 256 == m % 256);
        assert(n == m) by (nonlinear_arith)
            requires
                n / 256 == m / 256,
                n % 256 == m % 256,
        ;
    }
}

proof fn lemma_peel_le(n: nat, m: nat, r1: Seq<u8>, r2: Seq<u8>)
    requires
        n < pow256(8),
        m < pow256(8),
        le_bytes(n, 8) + r1 == le_bytes(m, 8) + r2,
    ensures
        n == m,
        r1 == r2,
{
    lemma_le_len(n, 8);
    lemma_le_len(m, 8);
    assert((le_bytes(n, 8) + r1).take(8) =~= le_bytes(n, 8));
    assert((le_bytes(m, 8) + r2).take(8) =~= le_bytes(m, 8));
    lemma_le_inj(n, m, 8);
    assert((le_bytes(n, 8) + r1).skip(8) =~= r1);
    assert((le_bytes(m, 8) + r2).skip(8) =~= r2);
}

proof fn lemma_peel_text(a: Seq<char>, b: Seq<char>, r1: Seq<u8>, r2: Seq<u8>)
    requires
        text_fits(a),
        text_fits(b),
        enc_text(a) + r1 == enc_text(b) + r2,
    ensures
        a == b,
        r1 == r2,
{
    let ea = encode_utf8(a);
    let eb = encode_utf8(b);
    assert(enc_text(a) + r1 =~= le_bytes(ea.len(), 8) + (ea + r1));
    assert(enc_text(b) + r2 =~= le_bytes(eb.len(), 8) + (eb + r2));
    lemma_peel_le(ea.len(), eb.len(), ea + r1, eb + r2);
    assert((ea + r1).take(ea.len() as int) =~= ea);
    assert((eb + r2).take(eb.len() as int) =~= eb);
    assert((ea + r1).skip(ea.len() as int) =~= r1);
    assert((eb + r2).skip(eb.len() as int) =~= r2);
    encode_utf8_decode_utf8(a);
    encode_utf8_decode_utf8(b);
}

proof fn lemma_peel_list(a: Seq<Seq<char>>, b: Seq<Seq<char>>, r1: Seq<u8>, r2: Seq<u8>)
    requires
        a.len() == b.len(),
        forall|i: int| 0 <= i < a.len() ==> text_fits(#[trigger] a[i]),
        forall|i: int| 0 <= i < b.len() ==> text_fits(#[trigger] b[i]),
        enc_list(a) + r1 == enc_list(b) + r2,
    ensures
        a == b,
        r1 == r2,
    decreases a.len(),
{
    if a.len() == 0 {
        assert(enc_list(a) + r1 =~= r1);
        assert(enc_list(b) + r2 =~= r2);
        assert(a =~= b);
    } else {
        assert(enc_list(a) + r1 =~= enc_text(a[0]) + (enc_list(a.drop_first()) + r1));
        assert(enc_list(b) + r2 =~= enc_text(b[0]) + (enc_list(b.drop_first()) + r2));
        assert(text_fits(a[0]) && text_fits(b[0]));
        lemma_peel_text(a[0], b[0], enc_list(a.drop_first()) + r1, enc_list(b.drop_first()) + r2);
        assert forall|i: int| 0 <= i < a.drop_first().len() implies text_fits(#[trigger] a.drop_first()[i]) by {
            assert(a.drop_first()[i] == a[i + 1]);
        }
        assert forall|i: int| 0 <= i < b.drop_first().len() implies text_fits(#[trigger] b.drop_first()[i]) by {
            assert(b.drop_first()[i] == b[i + 1]);
        }
        lemma_peel_list(a.drop_first(), b.drop_first(), r1, r2);
        assert(a =~= b.drop_first().insert(0, b[0]));
        assert(b =~= b.drop_first().insert(0, b[0]));
    }
}

proof fn lemma_flag_fits(b: bool)
    ensures
        flag(b) < pow256(8),
{
    assert(pow256(8) > 1) by {
        lemma_pow_pos(8);
        assert(pow256(0) == 1);
        assert(pow256(1) == 256);
        lemma_pow_mono(1, 8);
    }
}

proof fn lemma_pow_pos(k: nat)
    ensures
        pow256(k) >= 1,
    decreases k,
{
    if k > 0 {
        lemma_pow_pos((k - 1) as nat);
    }
}

proof fn lemma_pow_mono(a: nat, b: nat)
    requires
        a <= b,
    ensures
        pow256(a) <= pow256(b),
    decreases b,
{
    if a < b {
        lemma_pow_mono(a, (b - 1) as nat);
        lemma_pow_pos((b - 1) as nat);
    }
}

proof fn lemma_peel_rules(a: Seq<(Seq<char>, bool)>, b: Seq<(Seq<char>, bool)>, r1: Seq<u8>, r2: Seq<u8>)
    requires
        a.len() == b.len(),
        forall|i: int| 0 <= i < a.len() ==> text_fits((#[trigger] a[i]).0),
        forall|i: int| 0 <= i < b.len() ==> text_fits((#[trigger] b[i]).0),
        enc_rule_list(a) + r1 == enc_rule_list(b) + r2,
    ensures
        a == b,
        r1 == r2,
    decreases a.len(),
{
    if a.len() == 0 {
        assert(enc_rule_list(a) + r1 =~= r1);
        assert(enc_rule_list(b) + r2 =~= r2);
        assert(a =~= b);
    } else {
        let ta = le_bytes(flag(a[0].1), 8) + (enc_rule_list(a.drop_first()) + r1);
        let tb = le_bytes(flag(b[0].1), 8) + (enc_rule_list(b.drop_first()) + r2);
        assert(enc_rule_list(a) + r1 =~= enc_text(a[0].0) + ta);
        assert(enc_rule_list(b) + r2 =~= enc_text(b[0].0) + tb);
        assert(text_fits(a[0].0) && text_fits(b[0].0));
        lemma_peel_text(a[0].0, b[0].0, ta, tb);
        lemma_flag_fits(a[0].1);
        lemma_flag_fits(b[0].1);
        lemma_peel_le(flag(a[0].1), flag(b[0].1), enc_rule_list(a.drop_first()) + r1, enc_rule_list(b.drop_first()) + r2);
        assert forall|i: int| 0 <= i < a.drop_first().len() implies text_fits((#[trigger] a.drop_first()[i]).0) by {
            assert(a.drop_first()[i] == a[i + 1]);
        }
        assert forall|i: int| 0 <= i < b.drop_first().len() implies text_fits((#[trigger] b.drop_first()[i]).0) by {
            assert(b.drop_first()[i] == b[i + 1]);
        }
        lemma_peel_rules(a.drop_first(), b.drop_first(), r1, r2);
        assert(a[0] == b[0]);
        assert(a =~= b.drop_first().insert(0, b[0]));
        assert(b =~= b.drop_first().insert(0, b[0]));
    }
}

proof fn lemma_peel_nums(a: Seq<nat>, b: Seq<nat>, r1: Seq<u8>, r2: Seq<u8>)
    requires
        a.len() == b.len(),
        forall|i: int| 0 <= i < a.len() ==> #[trigger] a[i] < pow256(8),
        forall|i: int| 0 <= i < b.len() ==> #[trigger] b[i] < pow256(8),
        enc_nums(a) + r1 == enc_nums(b) + r2,
    ensures
        a == b,
        r1 == r2,
    decreases a.len(),
{
    if a.len() == 0 {
        assert(enc_nums(a) + r1 =~= r1);
        assert(enc_nums(b) + r2 =~= r2);
        assert(a =~= b);
    } else {
        assert(enc_nums(a) + r1 =~= le_bytes(a[0], 8) + (enc_nums(a.drop_first()) + r1));
        assert(enc_nums(b) + r2 =~= le_bytes(b[0], 8) + (enc_nums(b.drop_first()) + r2));
        assert(a[0] < pow256(8) && b[0] < pow256(8));
        lemma_peel_le(a[0], b[0], enc_nums(a.drop_first()) + r1, enc_nums(b.drop_first()) + r2);
        assert forall|i: int| 0 <= i < a.drop_first().len() implies #[trigger] a.drop_first()[i] < pow256(8) by {
            assert(a.drop_first()[i] == a[i + 1]);
        }
        assert forall|i: int| 0 <= i < b.drop_first().len() implies #[trigger] b.drop_first()[i] < pow256(8) by {
            assert(b.drop_first()[i] == b[i + 1]);
        }
        lemma_peel_nums(a.drop_first(), b.drop_first(), r1, r2);
        assert(a =~= seq![a[0]] + a.drop_first());
        assert(b =~= seq![b[0]] + b.drop_first());
    }
}

proof fn lemma_peel_field(a: Field, b: Field, r1: Seq<u8>, r2: Seq<u8>)
    requires
        same_kind(a, b),
        field_fits(a),
        field_fits(b),
        enc_field(a) + r1 == enc_field(b) + r2,
    ensures
        a == b,
        r1 == r2,
{
    match (a, b) {
        (Field::Num(x), Field::Num(y)) => {
            lemma_peel_le(x, y, r1, r2);
        },
        (Field::Nums(x), Field::Nums(y)) => {
            assert(enc_field(a) + r1 =~= le_bytes(x.len(), 8) + (enc_nums(x) + r1));
            assert(enc_field(b) + r2 =~= le_bytes(y.len(), 8) + (enc_nums(y) + r2));
            lemma_peel_le(x.len(), y.len(), enc_nums(x) + r1, enc_nums(y) + r2);
            lemma_peel_nums(x, y, r1, r2);
        },
        (Field::Text(x), Field::Text(y)) => {
            lemma_peel_text(x, y, r1, r2);
        },
        (Field::Texts(x), Field::Texts(y)) => {
            assert(enc_field(a) + r1 =~= le_bytes(x.len(), 8) + (enc_list(x) + r1));
            assert(enc_field(b) + r2 =~= le_bytes(y.len(), 8) + (enc_list(y) + r2));
            lemma_peel_le(x.len(), y.len(), enc_list(x) + r1, enc_list(y) + r2);
            lemma_peel_list(x, y, r1, r2);
        },
        (Field::Rules(x), Field::Rules(y)) => {
            assert(enc_field(a) + r1 =~= le_bytes(x.len(), 8) + (enc_rule_list(x) + r1));
            assert(enc_field(b) + r2 =~= le_bytes(y.len(), 8) + (enc_rule_list(y) + r2));
            lemma_peel_le(x.len(), y.len(), enc_rule_list(x) + r1, enc_rule_list(y) + r2);
            lemma_peel_rules(x, y, r1, r2);
        },
        _ => {},
    }
}

/// Field lists of one shape with equal byte forms are equal.
pub proof fn lemma_fields_injective(a: Seq<Field>, b: Seq<Field>)
    requires
        a.len() == b.len(),
        forall|i: int| 0 <= i < a.len() ==> same_kind(#[trigger] a[i], b[i]),
        forall|i: int| 0 <= i < a.len() ==> field_fits(#[trigger] a[i]),
        forall|i: int| 0 <= i < b.len() ==> field_fits(#[trigger] b[i]),
        enc_fields(a) == enc_fields(b),
    ensures
        a == b,
    decreases a.len(),
{
    if a.len() > 0 {
        assert(enc_fields(a) =~= enc_field(a[0]) + enc_fields(a.drop_first()));
        assert(same_kind(a[0], b[0]));
        lemma_peel_field(a[0], b[0], enc_fields(a.drop_first()), enc_fields(b.drop_first()));
        assert forall|i: int| 0 <= i < a.drop_first().len() implies same_kind(#[trigger] a.drop_first()[i], b.drop_first()[i]) by {
            assert(a.drop_first()[i] == a[i + 1]);
            assert(b.drop_first()[i] == b[i + 1]);
        }
        assert forall|i: int| 0 <= i < a.drop_first().len() implies field_fits(#[trigger] a.drop_first()[i]) by {
            assert(a.drop_first()[i] == a[i + 1]);
        }
        assert forall|i: int| 0 <= i < b.drop_first().len() implies field_fits(#[trigger] b.drop_first()[i]) by {
            assert(b.drop_first()[i] == b[i + 1]);
        }
        lemma_fields_injective(a.drop_first(), b.drop_first());
        assert(a =~= seq![a[0]] + a.drop_first());
        assert(b =~= seq![b[0]] + b.drop_first());
    } else {
        assert(a =~= b);
    }
}

pub open spec fn doc_tag(t: DocumentType) -> nat {
    match t {
        DocumentType::LegalContract => 0,
        DocumentType::AcademicPaper => 1,
        DocumentType::TechnicalManual => 2,
        DocumentType::BusinessReport => 3,
        DocumentType::Generic => 4,
        DocumentType::Unknown => 5,
    }
}

fn doc_tag_of(t: DocumentType) -> (r: u64)
    ensures
        r == doc_tag(t),
{
    match t {
        DocumentType::LegalContract => 0,
        DocumentType::AcademicPaper => 1,
        DocumentType::TechnicalManual => 2,
        DocumentType::BusinessReport => 3,
        DocumentType::Generic => 4,
        DocumentType::Unknown => 5,
    }
}

pub open spec fn hyphen_tag(t: HyphenStrategy) -> nat {
    match t {
        HyphenStrategy::Reject => 0,
        HyphenStrategy::Strict => 1,
        HyphenStrategy::ContextAware => 2,
        HyphenStrategy::Permissive => 3,
    }
}

fn hyphen_tag_of(t: HyphenStrategy) -> (r: u64)
    ensures
        r == hyphen_tag(t),
{
    match t {
        HyphenStrategy::Reject => 0,
        HyphenStrategy::Strict => 1,
        HyphenStrategy::ContextAware => 2,
        HyphenStrategy::Permissive => 3,
    }
}

fn flag_of(b: bool) -> (r: u64)
    ensures
        r == flag(b),
{
    if b { 1 } else { 0 }
}

pub open spec fn rules_view(v: Seq<RuleConfig>) -> Seq<(Seq<char>, bool)> {
    v.map_values(|r: RuleConfig| (r.name@, r.enabled))
}

/// The leaf groups of a configuration, in the order they are written.
/// Numbers and flags, part 1.
pub open spec fn scalars_1(c: ParsingConfig) -> Seq<nat> {
    seq![
        doc_tag(c.document_type),
        c.section_and_hierarchy.large_header_threshold as nat,
        c.section_and_hierarchy.medium_header_threshold as nat,
        c.section_and_hierarchy.small_header_threshold as nat,
        c.section_and_hierarchy.min_header_size as nat,
        flag(c.section_and_hierarchy.use_bold_indicator),
        flag(c.section_and_hierarchy.bold_size_strict),
        c.section_and_hierarchy.max_depth as nat,
        c.section_and_hierarchy.font_size_tolerance as nat,
        flag(c.section_and_hierarchy.enforce_max_depth),
        c.section_and_hierarchy.starting_section_level as nat,
        flag(c.section_and_hierarchy.pattern_detection.enabled),
        flag(c.section_and_hierarchy.pattern_detection.respect_font_constraints)
    ]
}

/// Numbers and flags, part 2.
pub open spec fn scalars_2(c: ParsingConfig) -> Seq<nat> {
    seq![
        flag(c.spatial_clustering.enabled),
        flag(c.spatial_clustering.enable_paragraph_merging),
        flag(c.spatial_clustering.enable_spatial_adjacency),
        c.spatial_clustering.min_line_height as nat,
        c.spatial_clustering.vertical_gap_threshold_multiplier as nat,
        c.spatial_clustering.horizontal_alignment_tolerance as nat,
        c.spatial_clustering.line_grouping_tolerance as nat,
        c.spatial_clustering.sections.min_segment_size as nat,
        c.spatial_clustering.sections.max_segment_size as nat,
        c.spatial_clustering.paragraphs.min_segment_size as nat,
        c.spatial_clustering.paragraphs.max_segment_size as nat,
        flag(c.include_raw_tika),
        flag(c.list_validation.enabled)
    ]
}

/// Numbers and flags, part 3.
pub open spec fn scalars_3(c: ParsingConfig) -> Seq<nat> {
    seq![
        flag(c.list_validation.minimum_size_check),
        flag(c.list_validation.first_item_validation),
        flag(c.list_validation.parenthetical_context_check),
        flag(c.list_validation.sequential_numbering_check),
        flag(c.list_validation.mathematical_context_check),
        flag(c.list_validation.hyphen_context_check),
        flag(c.list_validation.sequential_numbering.allow_letter_sequences),
        c.list_validation.sequential_numbering.max_gap_tolerance as nat,
        hyphen_tag(c.list_validation.hyphen_context.strategy),
        flag(c.list_validation.hyphen_context.require_space_after),
        flag(c.minimal_parse)
    ]
}

/// Every number and flag of a configuration, in the order written.
pub open spec fn scalars(c: ParsingConfig) -> Seq<nat> {
    scalars_1(c) + scalars_2(c) + scalars_3(c) + scalars_4(c)
}

/// The size enforcer's settings.
pub open spec fn scalars_4(c: ParsingConfig) -> Seq<nat> {
    seq![
        flag(c.size_enforcer.enabled),
        c.size_enforcer.max_size as nat,
        split_tag(c.size_enforcer.split_direction),
    ]
}

pub open spec fn split_tag(d: SplitDirection) -> nat {
    match d {
        SplitDirection::Vertical => 0,
        SplitDirection::Horizontal => 1,
    }
}

fn split_tag_of(d: SplitDirection) -> (r: u64)
    ensures
        r == split_tag(d),
{
    match d {
        SplitDirection::Vertical => 0,
        SplitDirection::Horizontal => 1,
    }
}

fn append_scalars_4(out: &mut Vec<u8>, c: &ParsingConfig)
    ensures
        final(out)@ == old(out)@ + enc_nums(scalars_4(*c)),
{
    let ghost start = out@;
    let ghost mut vs: Seq<nat> = Seq::empty();
    assert(enc_nums(vs) =~= Seq::<u8>::empty());
    assert(start + enc_nums(vs) =~= start);
    append_num(out, flag_of(c.size_enforcer.enabled));
    proof {
        lemma_enc_nums_push(vs, flag(c.size_enforcer.enabled));
        vstd::seq_lib::lemma_concat_associative(start, enc_nums(vs), le_bytes(flag(c.size_enforcer.enabled), 8));
        vs = vs.push(flag(c.size_enforcer.enabled));
    }
    append_num(out, c.size_enforcer.max_size as u64);
    proof {
        lemma_enc_nums_push(vs, c.size_enforcer.max_size as nat);
        vstd::seq_lib::lemma_concat_associative(start, enc_nums(vs), le_bytes(c.size_enforcer.max_size as nat, 8));
        vs = vs.push(c.size_enforcer.max_size as nat);
    }
    append_num(out, split_tag_of(c.size_enforcer.split_direction));
    proof {
        lemma_enc_nums_push(vs, split_tag(c.size_enforcer.split_direction));
        vstd::seq_lib::lemma_concat_associative(start, enc_nums(vs), le_bytes(split_tag(c.size_enforcer.split_direction), 8));
        vs = vs.push(split_tag(c.size_enforcer.split_direction));
    }
    assert(vs =~= scalars_4(*c));
}

pub open spec fn same_leaves_4(a: ParsingConfig, b: ParsingConfig) -> bool {
    &&& a.size_enforcer.enabled == b.size_enforcer.enabled
    &&& a.size_enforcer.max_size == b.size_enforcer.max_size
    &&& a.size_enforcer.split_direction == b.size_enforcer.split_direction
}

proof fn lemma_scalars_fit_4(c: ParsingConfig)
    ensures
        scalars_4(c).len() == 3,
        forall|i: int| 0 <= i < 3 ==> #[trigger] scalars_4(c)[i] < pow256(8),
{
    lemma_pow256_8();
    let v = scalars_4(c);
    assert(v[0] == flag(c.size_enforcer.enabled));
    assert(v[1] == c.size_enforcer.max_size as nat);
    assert(v[2] == split_tag(c.size_enforcer.split_direction));
}

proof fn lemma_leaves_4(a: ParsingConfig, b: ParsingConfig)
    requires
        scalars_4(a) == scalars_4(b),
    ensures
        same_leaves_4(a, b),
{
    assert(scalars_4(a)[0] == scalars_4(b)[0]);
    assert(scalars_4(a)[1] == scalars_4(b)[1]);
    assert(scalars_4(a)[2] == scalars_4(b)[2]);
}

/// The leaf groups of a configuration, in the order they are written.
pub open spec fn fields_of(c: ParsingConfig) -> Seq<Field> {
    seq![
        Field::Nums(scalars(c)),
        Field::Texts(c.section_and_hierarchy.pattern_detection.patterns.deep_view()),
        Field::Rules(rules_view(c.pipeline.rules@)),
        Field::Texts(c.list_validation.mathematical_context.symbols.deep_view()),
        Field::Texts(c.list_validation.mathematical_context.terms.deep_view()),
    ]
}

/// The canonical byte form of a configuration.
pub open spec fn config_bytes_of(c: ParsingConfig) -> Seq<u8> {
    enc_fields(fields_of(c))
}

fn append_num(out: &mut Vec<u8>, n: u64)
    ensures
        final(out)@ == old(out)@ + le_bytes(n as nat, 8),
{
    let b = le_bytes_of(n);
    push_bytes(out, b.as_slice(), 0, b.len());
    assert(b@.subrange(0, b@.len() as int) =~= b@);
}

fn append_text(out: &mut Vec<u8>, s: &str)
    ensures
        final(out)@ == old(out)@ + enc_text(s@),
{
    let b = s.as_bytes();
    let ghost start = out@;
    append_num(out, b.len() as u64);
    push_bytes(out, b, 0, b.len());
    assert(b@.subrange(0, b@.len() as int) =~= b@);
    assert(out@ =~= start + enc_text(s@));
}

proof fn lemma_enc_list_push(v: Seq<Seq<char>>, x: Seq<char>)
    ensures
        enc_list(v.push(x)) == enc_list(v) + enc_text(x),
    decreases v.len(),
{
    if v.len() == 0 {
        assert(v.push(x).drop_first() =~= Seq::<Seq<char>>::empty());
        assert(enc_list(Seq::<Seq<char>>::empty()) =~= Seq::<u8>::empty());
        assert(v.push(x)[0] == x);
        assert(enc_list(v) =~= Seq::<u8>::empty());
        assert(enc_list(v.push(x)) =~= enc_text(x));
    } else {
        assert(v.push(x).drop_first() =~= v.drop_first().push(x));
        lemma_enc_list_push(v.drop_first(), x);
        assert(enc_list(v.push(x)) =~= enc_list(v) + enc_text(x));
    }
}

proof fn lemma_enc_rules_push(v: Seq<(Seq<char>, bool)>, x: (Seq<char>, bool))
    ensures
        enc_rule_list(v.push(x)) == enc_rule_list(v) + (enc_text(x.0) + le_bytes(flag(x.1), 8)),
    decreases v.len(),
{
    if v.len() == 0 {
        assert(v.push(x).drop_first() =~= Seq::<(Seq<char>, bool)>::empty());
        assert(enc_rule_list(Seq::<(Seq<char>, bool)>::empty()) =~= Seq::<u8>::empty());
        assert(v.push(x)[0] == x);
        assert(enc_rule_list(v) =~= Seq::<u8>::empty());
        assert(enc_rule_list(v.push(x)) =~= enc_text(x.0) + le_bytes(flag(x.1), 8));
    } else {
        assert(v.push(x).drop_first() =~= v.drop_first().push(x));
        lemma_enc_rules_push(v.drop_first(), x);
        assert(enc_rule_list(v.push(x)) =~= enc_rule_list(v) + (enc_text(x.0) + le_bytes(flag(x.1), 8)));
    }
}

fn append_texts(out: &mut Vec<u8>, v: &Vec<String>)
    ensures
        final(out)@ == old(out)@ + enc_field(Field::Texts(v.deep_view())),
{
    let ghost start = out@;
    append_num(out, v.len() as u64);
    let ghost mid = out@;
    let mut i: usize = 0;
    while i < v.len()
        invariant
            i <= v@.len(),
            out@ == mid + enc_list(v.deep_view().take(i as int)),
        decreases v@.len() - i,
    {
        append_text(out, v[i].as_str());
        proof {
            lemma_enc_list_push(v.deep_view().take(i as int), v@[i as int]@);
            assert(v.deep_view().take(i + 1) =~= v.deep_view().take(i as int).push(v@[i as int]@));
        }
        i = i + 1;
    }
    assert(v.deep_view().take(v@.len() as int) =~= v.deep_view());
    assert(out@ =~= start + enc_field(Field::Texts(v.deep_view())));
}

fn append_rules(out: &mut Vec<u8>, v: &Vec<RuleConfig>)
    ensures
        final(out)@ == old(out)@ + enc_field(Field::Rules(rules_view(v@))),
{
    let ghost start = out@;
    append_num(out, v.len() as u64);
    let ghost mid = out@;
    let mut i: usize = 0;
    while i < v.len()
        invariant
            i <= v@.len(),
            out@ == mid + enc_rule_list(rules_view(v@).take(i as int)),
        decreases v@.len() - i,
    {
        let ghost before = out@;
        append_text(out, v[i].name.as_str());
        append_num(out, flag_of(v[i].enabled));
        proof {
            lemma_enc_rules_push(rules_view(v@).take(i as int), rules_view(v@)[i as int]);
            assert(rules_view(v@).take(i + 1) =~= rules_view(v@).take(i as int).push(rules_view(v@)[i as int]));
            assert(out@ =~= before + (enc_text(v@[i as int].name@) + le_bytes(flag(v@[i as int].enabled), 8)));
        }
        i = i + 1;
    }
    assert(rules_view(v@).take(v@.len() as int) =~= rules_view(v@));
    assert(out@ =~= start + enc_field(Field::Rules(rules_view(v@))));
}

#[verifier::rlimit(100)]
fn append_scalars_1(out: &mut Vec<u8>, c: &ParsingConfig)
    ensures
        final(out)@ == old(out)@ + enc_nums(scalars_1(*c)),
{
    let ghost start = out@;
    let ghost mut vs: Seq<nat> = Seq::empty();
    assert(enc_nums(vs) =~= Seq::<u8>::empty());
    assert(start + enc_nums(vs) =~= start);
    append_num(out, doc_tag_of(c.document_type));
    proof {
        lemma_enc_nums_push(vs, doc_tag(c.document_type));
        vstd::seq_lib::lemma_concat_associative(start, enc_nums(vs), le_bytes(doc_tag(c.document_type), 8));
        vs = vs.push(doc_tag(c.document_type));
    }
    append_num(out, c.section_and_hierarchy.large_header_threshold as u64);
    proof {
        lemma_enc_nums_push(vs, c.section_and_hierarchy.large_header_threshold as nat);
        vstd::seq_lib::lemma_concat_associative(start, enc_nums(vs), le_bytes(c.section_and_hierarchy.large_header_threshold as nat, 8));
        vs = vs.push(c.section_and_hierarchy.large_header_threshold as nat);
    }
    append_num(out, c.section_and_hierarchy.medium_header_threshold as u64);
    proof {
        lemma_enc_nums_push(vs, c.section_and_hierarchy.medium_header_threshold as nat);
        vstd::seq_lib::lemma_concat_associative(start, enc_nums(vs), le_bytes(c.section_and_hierarchy.medium_header_threshold as nat, 8));
        vs = vs.push(c.section_and_hierarchy.medium_header_threshold as nat);
    }
    append_num(out, c.section_and_hierarchy.small_header_threshold as u64);
    proof {
        lemma_enc_nums_push(vs, c.section_and_hierarchy.small_header_threshold as nat);
        vstd::seq_lib::lemma_concat_associative(start, enc_nums(vs), le_bytes(c.section_and_hierarchy.small_header_threshold as nat, 8));
        vs = vs.push(c.section_and_hierarchy.small_header_threshold as nat);
    }
    append_num(out, c.section_and_hierarchy.min_header_size as u64);
    proof {
        lemma_enc_nums_push(vs, c.section_and_hierarchy.min_header_size as nat);
        vstd::seq_lib::lemma_concat_associative(start, enc_nums(vs), le_bytes(c.section_and_hierarchy.min_header_size as nat, 8));
        vs = vs.push(c.section_and_hierarchy.min_header_size as nat);
    }
    append_num(out, flag_of(c.section_and_hierarchy.use_bold_indicator));
    proof {
        lemma_enc_nums_push(vs, flag(c.section_and_hierarchy.use_bold_indicator));
        vstd::seq_lib::lemma_concat_associative(start, enc_nums(vs), le_bytes(flag(c.section_and_hierarchy.use_bold_indicator), 8));
        vs = vs.push(flag(c.section_and_hierarchy.use_bold_indicator));
    }
    append_num(out, flag_of(c.section_and_hierarchy.bold_size_strict));
    proof {
        lemma_enc_nums_push(vs, flag(c.section_and_hierarchy.bold_size_strict));
        vstd::seq_lib::lemma_concat_associative(start, enc_nums(vs), le_bytes(flag(c.section_and_hierarchy.bold_size_strict), 8));
        vs = vs.push(flag(c.section_and_hierarchy.bold_size_strict));
    }
    append_num(out, c.section_and_hierarchy.max_depth as u64);
    proof {
        lemma_enc_nums_push(vs, c.section_and_hierarchy.max_depth as nat);
        vstd::seq_lib::lemma_concat_associative(start, enc_nums(vs), le_bytes(c.section_and_hierarchy.max_depth as nat, 8));
        vs = vs.push(c.section_and_hierarchy.max_depth as nat);
    }
    append_num(out, c.section_and_hierarchy.font_size_tolerance as u64);
    proof {
        lemma_enc_nums_push(vs, c.section_and_hierarchy.font_size_tolerance as nat);
        vstd::seq_lib::lemma_concat_associative(start, enc_nums(vs), le_bytes(c.section_and_hierarchy.font_size_tolerance as nat, 8));
        vs = vs.push(c.section_and_hierarchy.font_size_tolerance as nat);
    }
    append_num(out, flag_of(c.section_and_hierarchy.enforce_max_depth));
    proof {
        lemma_enc_nums_push(vs, flag(c.section_and_hierarchy.enforce_max_depth));
        vstd::seq_lib::lemma_concat_associative(start, enc_nums(vs), le_bytes(flag(c.section_and_hierarchy.enforce_max_depth), 8));
        vs = vs.push(flag(c.section_and_hierarchy.enforce_max_depth));
    }
    append_num(out, c.section_and_hierarchy.starting_section_level as u64);
    proof {
        lemma_enc_nums_push(vs, c.section_and_hierarchy.starting_section_level as nat);
        vstd::seq_lib::lemma_concat_associative(start, enc_nums(vs), le_bytes(c.section_and_hierarchy.starting_section_level as nat, 8));
        vs = vs.push(c.section_and_hierarchy.starting_section_level as nat);
    }
    append_num(out, flag_of(c.section_and_hierarchy.pattern_detection.enabled));
    proof {
        lemma_enc_nums_push(vs, flag(c.section_and_hierarchy.pattern_detection.enabled));
        vstd::seq_lib::lemma_concat_associative(start, enc_nums(vs), le_bytes(flag(c.section_and_hierarchy.pattern_detection.enabled), 8));
        vs = vs.push(flag(c.section_and_hierarchy.pattern_detection.enabled));
    }
    append_num(out, flag_of(c.section_and_hierarchy.pattern_detection.respect_font_constraints));
    proof {
        lemma_enc_nums_push(vs, flag(c.section_and_hierarchy.pattern_detection.respect_font_constraints));
        vstd::seq_lib::lemma_concat_associative(start, enc_nums(vs), le_bytes(flag(c.section_and_hierarchy.pattern_detection.respect_font_constraints), 8));
        vs = vs.push(flag(c.section_and_hierarchy.pattern_detection.respect_font_constraints));
    }
    assert(vs =~= scalars_1(*c));
}

#[verifier::rlimit(100)]
fn append_scalars_2(out: &mut Vec<u8>, c: &ParsingConfig)
    ensures
        final(out)@ == old(out)@ + enc_nums(scalars_2(*c)),
{
    let ghost start = out@;
    let ghost mut vs: Seq<nat> = Seq::empty();
    assert(enc_nums(vs) =~= Seq::<u8>::empty());
    assert(start + enc_nums(vs) =~= start);
    append_num(out, flag_of(c.spatial_clustering.enabled));
    proof {
        lemma_enc_nums_push(vs, flag(c.spatial_clustering.enabled));
        vstd::seq_lib::lemma_concat_associative(start, enc_nums(vs), le_bytes(flag(c.spatial_clustering.enabled), 8));
        vs = vs.push(flag(c.spatial_clustering.enabled));
    }
    append_num(out, flag_of(c.spatial_clustering.enable_paragraph_merging));
    proof {
        lemma_enc_nums_push(vs, flag(c.spatial_clustering.enable_paragraph_merging));
        vstd::seq_lib::lemma_concat_associative(start, enc_nums(vs), le_bytes(flag(c.spatial_clustering.enable_paragraph_merging), 8));
        vs = vs.push(flag(c.spatial_clustering.enable_paragraph_merging));
    }
    append_num(out, flag_of(c.spatial_clustering.enable_spatial_adjacency));
    proof {
        lemma_enc_nums_push(vs, flag(c.spatial_clustering.enable_spatial_adjacency));
        vstd::seq_lib::lemma_concat_associative(start, enc_nums(vs), le_bytes(flag(c.spatial_clustering.enable_spatial_adjacency), 8));
        vs = vs.push(flag(c.spatial_clustering.enable_spatial_adjacency));
    }
    append_num(out, c.spatial_clustering.min_line_height as u64);
    proof {
        lemma_enc_nums_push(vs, c.spatial_clustering.min_line_height as nat);
        vstd::seq_lib::lemma_concat_associative(start, enc_nums(vs), le_bytes(c.spatial_clustering.min_line_height as nat, 8));
        vs = vs.push(c.spatial_clustering.min_line_height as nat);
    }
    append_num(out, c.spatial_clustering.vertical_gap_threshold_multiplier as u64);
    proof {
        lemma_enc_nums_push(vs, c.spatial_clustering.vertical_gap_threshold_multiplier as nat);
        vstd::seq_lib::lemma_concat_associative(start, enc_nums(vs), le_bytes(c.spatial_clustering.vertical_gap_threshold_multiplier as nat, 8));
        vs = vs.push(c.spatial_clustering.vertical_gap_threshold_multiplier as nat);
    }
    append_num(out, c.spatial_clustering.horizontal_alignment_tolerance as u64);
    proof {
        lemma_enc_nums_push(vs, c.spatial_clustering.horizontal_alignment_tolerance as nat);
        vstd::seq_lib::lemma_concat_associative(start, enc_nums(vs), le_bytes(c.spatial_clustering.horizontal_alignment_tolerance as nat, 8));
        vs = vs.push(c.spatial_clustering.horizontal_alignment_tolerance as nat);
    }
    append_num(out, c.spatial_clustering.line_grouping_tolerance as u64);
    proof {
        lemma_enc_nums_push(vs, c.spatial_clustering.line_grouping_tolerance as nat);
        vstd::seq_lib::lemma_concat_associative(start, enc_nums(vs), le_bytes(c.spatial_clustering.line_grouping_tolerance as nat, 8));
        vs = vs.push(c.spatial_clustering.line_grouping_tolerance as nat);
    }
    append_num(out, c.spatial_clustering.sections.min_segment_size as u64);
    proof {
        lemma_enc_nums_push(vs, c.spatial_clustering.sections.min_segment_size as nat);
        vstd::seq_lib::lemma_concat_associative(start, enc_nums(vs), le_bytes(c.spatial_clustering.sections.min_segment_size as nat, 8));
        vs = vs.push(c.spatial_clustering.sections.min_segment_size as nat);
    }
    append_num(out, c.spatial_clustering.sections.max_segment_size as u64);
    proof {
        lemma_enc_nums_push(vs, c.spatial_clustering.sections.max_segment_size as nat);
        vstd::seq_lib::lemma_concat_associative(start, enc_nums(vs), le_bytes(c.spatial_clustering.sections.max_segment_size as nat, 8));
        vs = vs.push(c.spatial_clustering.sections.max_segment_size as nat);
    }
    append_num(out, c.spatial_clustering.paragraphs.min_segment_size as u64);
    proof {
        lemma_enc_nums_push(vs, c.spatial_clustering.paragraphs.min_segment_size as nat);
        vstd::seq_lib::lemma_concat_associative(start, enc_nums(vs), le_bytes(c.spatial_clustering.paragraphs.min_segment_size as nat, 8));
        vs = vs.push(c.spatial_clustering.paragraphs.min_segment_size as nat);
    }
    append_num(out, c.spatial_clustering.paragraphs.max_segment_size as u64);
    proof {
        lemma_enc_nums_push(vs, c.spatial_clustering.paragraphs.max_segment_size as nat);
        vstd::seq_lib::lemma_concat_associative(start, enc_nums(vs), le_bytes(c.spatial_clustering.paragraphs.max_segment_size as nat, 8));
        vs = vs.push(c.spatial_clustering.paragraphs.max_segment_size as nat);
    }
    append_num(out, flag_of(c.include_raw_tika));
    proof {
        lemma_enc_nums_push(vs, flag(c.include_raw_tika));
        vstd::seq_lib::lemma_concat_associative(start, enc_nums(vs), le_bytes(flag(c.include_raw_tika), 8));
        vs = vs.push(flag(c.include_raw_tika));
    }
    append_num(out, flag_of(c.list_validation.enabled));
    proof {
        lemma_enc_nums_push(vs, flag(c.list_validation.enabled));
        vstd::seq_lib::lemma_concat_associative(start, enc_nums(vs), le_bytes(flag(c.list_validation.enabled), 8));
        vs = vs.push(flag(c.list_validation.enabled));
    }
    assert(vs =~= scalars_2(*c));
}

#[verifier::rlimit(100)]
fn append_scalars_3a(out: &mut Vec<u8>, c: &ParsingConfig)
    ensures
        final(out)@ == old(out)@ + enc_nums(scalars_3(*c).take(6)),
{
    let ghost start = out@;
    let ghost mut vs: Seq<nat> = Seq::empty();
    assert(enc_nums(vs) =~= Seq::<u8>::empty());
    assert(start + enc_nums(vs) =~= start);
    append_num(out, flag_of(c.list_validation.minimum_size_check));
    proof {
        lemma_enc_nums_push(vs, flag(c.list_validation.minimum_size_check));
        vstd::seq_lib::lemma_concat_associative(start, enc_nums(vs), le_bytes(flag(c.list_validation.minimum_size_check), 8));
        vs = vs.push(flag(c.list_validation.minimum_size_check));
    }
    append_num(out, flag_of(c.list_validation.first_item_validation));
    proof {
        lemma_enc_nums_push(vs, flag(c.list_validation.first_item_validation));
        vstd::seq_lib::lemma_concat_associative(start, enc_nums(vs), le_bytes(flag(c.list_validation.first_item_validation), 8));
        vs = vs.push(flag(c.list_validation.first_item_validation));
    }
    append_num(out, flag_of(c.list_validation.parenthetical_context_check));
    proof {
        lemma_enc_nums_push(vs, flag(c.list_validation.parenthetical_context_check));
        vstd::seq_lib::lemma_concat_associative(start, enc_nums(vs), le_bytes(flag(c.list_validation.parenthetical_context_check), 8));
        vs = vs.push(flag(c.list_validation.parenthetical_context_check));
    }
    append_num(out, flag_of(c.list_validation.sequential_numbering_check));
    proof {
        lemma_enc_nums_push(vs, flag(c.list_validation.sequential_numbering_check));
        vstd::seq_lib::lemma_concat_associative(start, enc_nums(vs), le_bytes(flag(c.list_validation.sequential_numbering_check), 8));
        vs = vs.push(flag(c.list_validation.sequential_numbering_check));
    }
    append_num(out, flag_of(c.list_validation.mathematical_context_check));
    proof {
        lemma_enc_nums_push(vs, flag(c.list_validation.mathematical_context_check));
        vstd::seq_lib::lemma_concat_associative(start, enc_nums(vs), le_bytes(flag(c.list_validation.mathematical_context_check), 8));
        vs = vs.push(flag(c.list_validation.mathematical_context_check));
    }
    append_num(out, flag_of(c.list_validation.hyphen_context_check));
    proof {
        lemma_enc_nums_push(vs, flag(c.list_validation.hyphen_context_check));
        vstd::seq_lib::lemma_concat_associative(start, enc_nums(vs), le_bytes(flag(c.list_validation.hyphen_context_check), 8));
        vs = vs.push(flag(c.list_validation.hyphen_context_check));
    }
    assert(vs =~= scalars_3(*c).take(6));
}

#[verifier::rlimit(100)]
fn append_scalars_3b(out: &mut Vec<u8>, c: &ParsingConfig)
    ensures
        final(out)@ == old(out)@ + enc_nums(scalars_3(*c).skip(6)),
{
    let ghost start = out@;
    let ghost mut vs: Seq<nat> = Seq::empty();
    assert(enc_nums(vs) =~= Seq::<u8>::empty());
    assert(start + enc_nums(vs) =~= start);
    append_num(out, flag_of(c.list_validation.sequential_numbering.allow_letter_sequences));
    proof {
        lemma_enc_nums_push(vs, flag(c.list_validation.sequential_numbering.allow_letter_sequences));
        vstd::seq_lib::lemma_concat_associative(start, enc_nums(vs), le_bytes(flag(c.list_validation.sequential_numbering.allow_letter_sequences), 8));
        vs = vs.push(flag(c.list_validation.sequential_numbering.allow_letter_sequences));
    }
    append_num(out, c.list_validation.sequential_numbering.max_gap_tolerance as u64);
    proof {
        lemma_enc_nums_push(vs, c.list_validation.sequential_numbering.max_gap_tolerance as nat);
        vstd::seq_lib::lemma_concat_associative(start, enc_nums(vs), le_bytes(c.list_validation.sequential_numbering.max_gap_tolerance as nat, 8));
        vs = vs.push(c.list_validation.sequential_numbering.max_gap_tolerance as nat);
    }
    append_num(out, hyphen_tag_of(c.list_validation.hyphen_context.strategy));
    proof {
        lemma_enc_nums_push(vs, hyphen_tag(c.list_validation.hyphen_context.strategy));
        vstd::seq_lib::lemma_concat_associative(start, enc_nums(vs), le_bytes(hyphen_tag(c.list_validation.hyphen_context.strategy), 8));
        vs = vs.push(hyphen_tag(c.list_validation.hyphen_context.strategy));
    }
    append_num(out, flag_of(c.list_validation.hyphen_context.require_space_after));
    proof {
        lemma_enc_nums_push(vs, flag(c.list_validation.hyphen_context.require_space_after));
        vstd::seq_lib::lemma_concat_associative(start, enc_nums(vs), le_bytes(flag(c.list_validation.hyphen_context.require_space_after), 8));
        vs = vs.push(flag(c.list_validation.hyphen_context.require_space_after));
    }
    append_num(out, flag_of(c.minimal_parse));
    proof {
        lemma_enc_nums_push(vs, flag(c.minimal_parse));
        vstd::seq_lib::lemma_concat_associative(start, enc_nums(vs), le_bytes(flag(c.minimal_parse), 8));
        vs = vs.push(flag(c.minimal_parse));
    }
    assert(vs =~= scalars_3(*c).skip(6));
}

fn append_scalars_3(out: &mut Vec<u8>, c: &ParsingConfig)
    ensures
        final(out)@ == old(out)@ + enc_nums(scalars_3(*c)),
{
    let ghost start = out@;
    append_scalars_3a(out, c);
    append_scalars_3b(out, c);
    proof {
        lemma_enc_nums_concat(scalars_3(*c).take(6), scalars_3(*c).skip(6));
        assert(scalars_3(*c).take(6) + scalars_3(*c).skip(6) =~= scalars_3(*c));
    }
    assert(out@ =~= start + enc_nums(scalars_3(*c)));
}

proof fn lemma_enc_nums_push(v: Seq<nat>, x: nat)
    ensures
        enc_nums(v.push(x)) == enc_nums(v) + le_bytes(x, 8),
    decreases v.len(),
{
    if v.len() == 0 {
        assert(v.push(x).drop_first() =~= Seq::<nat>::empty());
        assert(enc_nums(Seq::<nat>::empty()) =~= Seq::<u8>::empty());
        assert(v.push(x)[0] == x);
        assert(enc_nums(v) =~= Seq::<u8>::empty());
        assert(enc_nums(v.push(x)) =~= le_bytes(x, 8));
    } else {
        assert(v.push(x).drop_first() =~= v.drop_first().push(x));
        lemma_enc_nums_push(v.drop_first(), x);
        assert(enc_nums(v.push(x)) =~= enc_nums(v) + le_bytes(x, 8));
    }
}

proof fn lemma_enc_nums_concat(a: Seq<nat>, b: Seq<nat>)
    ensures
        enc_nums(a + b) == enc_nums(a) + enc_nums(b),
    decreases a.len(),
{
    if a.len() == 0 {
        assert(a + b =~= b);
        assert(enc_nums(a) =~= Seq::<u8>::empty());
        assert(enc_nums(a + b) =~= enc_nums(a) + enc_nums(b));
    } else {
        assert((a + b).drop_first() =~= a.drop_first() + b);
        lemma_enc_nums_concat(a.drop_first(), b);
        assert((a + b)[0] == a[0]);
        assert(enc_nums(a + b) =~= enc_nums(a) + enc_nums(b));
    }
}

/// The canonical byte form of `c`.
#[verifier::rlimit(60)]
pub fn config_bytes(c: &ParsingConfig) -> (r: Vec<u8>)
    ensures
        r@ == config_bytes_of(*c),
{
    let mut out: Vec<u8> = Vec::new();
    append_num(&mut out, 40);
    append_scalars_1(&mut out, c);
    append_scalars_2(&mut out, c);
    append_scalars_3(&mut out, c);
    append_scalars_4(&mut out, c);
    proof {
        lemma_enc_nums_concat(scalars_1(*c), scalars_2(*c));
        lemma_enc_nums_concat(scalars_1(*c) + scalars_2(*c), scalars_3(*c));
        lemma_enc_nums_concat(scalars_1(*c) + scalars_2(*c) + scalars_3(*c), scalars_4(*c));
        assert(scalars(*c).len() == 40);
    }
    assert(out@ =~= enc_field(Field::Nums(scalars(*c))));
    append_texts(&mut out, &c.section_and_hierarchy.pattern_detection.patterns);
    append_rules(&mut out, &c.pipeline.rules);
    append_texts(&mut out, &c.list_validation.mathematical_context.symbols);
    append_texts(&mut out, &c.list_validation.mathematical_context.terms);
    proof {
        let fs = fields_of(*c);
        let d1 = fs.drop_first();
        let d2 = d1.drop_first();
        let d3 = d2.drop_first();
        let d4 = d3.drop_first();
        let d5 = d4.drop_first();
        assert(d5.len() == 0);
        assert(enc_fields(d5) =~= Seq::<u8>::empty());
        assert(d4[0] == fs[4]);
        assert(d3[0] == fs[3]);
        assert(d2[0] == fs[2]);
        assert(d1[0] == fs[1]);
        assert(enc_fields(d4) == enc_field(d4[0]) + enc_fields(d5));
        assert(enc_fields(d3) == enc_field(d3[0]) + enc_fields(d4));
        assert(enc_fields(d2) == enc_field(d2[0]) + enc_fields(d3));
        assert(enc_fields(d1) == enc_field(d1[0]) + enc_fields(d2));
        assert(enc_fields(fs) == enc_field(fs[0]) + enc_fields(d1));
        assert(out@ =~= enc_fields(fs));
    }
    out
}

/// The configuration hash: the digest of the canonical byte form.
pub fn calculate_config_hash(c: &ParsingConfig) -> (r: String)
    ensures
        r@ == sha256_hex_of(config_bytes_of(*c)),
        r@.len() == 64,
        forall|i: int| 0 <= i < r@.len() ==> crate::cache::is_lower_hex(#[trigger] r@[i]),
{
    let b = config_bytes(c);
    sha256_hex(b.as_slice())
}

pub open spec fn same_leaves_1(a: ParsingConfig, b: ParsingConfig) -> bool {
    &&& a.document_type == b.document_type
    &&& a.section_and_hierarchy.large_header_threshold == b.section_and_hierarchy.large_header_threshold
    &&& a.section_and_hierarchy.medium_header_threshold == b.section_and_hierarchy.medium_header_threshold
    &&& a.section_and_hierarchy.small_header_threshold == b.section_and_hierarchy.small_header_threshold
    &&& a.section_and_hierarchy.min_header_size == b.section_and_hierarchy.min_header_size
    &&& a.section_and_hierarchy.use_bold_indicator == b.section_and_hierarchy.use_bold_indicator
    &&& a.section_and_hierarchy.bold_size_strict == b.section_and_hierarchy.bold_size_strict
    &&& a.section_and_hierarchy.max_depth == b.section_and_hierarchy.max_depth
    &&& a.section_and_hierarchy.font_size_tolerance == b.section_and_hierarchy.font_size_tolerance
    &&& a.section_and_hierarchy.enforce_max_depth == b.section_and_hierarchy.enforce_max_depth
    &&& a.section_and_hierarchy.starting_section_level == b.section_and_hierarchy.starting_section_level
    &&& a.section_and_hierarchy.pattern_detection.enabled == b.section_and_hierarchy.pattern_detection.enabled
    &&& a.section_and_hierarchy.pattern_detection.respect_font_constraints == b.section_and_hierarchy.pattern_detection.respect_font_constraints
}

pub open spec fn same_leaves_2(a: ParsingConfig, b: ParsingConfig) -> bool {
    &&& a.spatial_clustering.enabled == b.spatial_clustering.enabled
    &&& a.spatial_clustering.enable_paragraph_merging == b.spatial_clustering.enable_paragraph_merging
    &&& a.spatial_clustering.enable_spatial_adjacency == b.spatial_clustering.enable_spatial_adjacency
    &&& a.spatial_clustering.min_line_height == b.spatial_clustering.min_line_height
    &&& a.spatial_clustering.vertical_gap_threshold_multiplier == b.spatial_clustering.vertical_gap_threshold_multiplier
    &&& a.spatial_clustering.horizontal_alignment_tolerance == b.spatial_clustering.horizontal_alignment_tolerance
    &&& a.spatial_clustering.line_grouping_tolerance == b.spatial_clustering.line_grouping_tolerance
    &&& a.spatial_clustering.sections.min_segment_size == b.spatial_clustering.sections.min_segment_size
    &&& a.spatial_clustering.sections.max_segment_size == b.spatial_clustering.sections.max_segment_size
    &&& a.spatial_clustering.paragraphs.min_segment_size == b.spatial_clustering.paragraphs.min_segment_size
    &&& a.spatial_clustering.paragraphs.max_segment_size == b.spatial_clustering.paragraphs.max_segment_size
    &&& a.include_raw_tika == b.include_raw_tika
    &&& a.list_validation.enabled == b.list_validation.enabled
}

pub open spec fn same_leaves_3(a: ParsingConfig, b: ParsingConfig) -> bool {
    &&& a.list_validation.minimum_size_check == b.list_validation.minimum_size_check
    &&& a.list_validation.first_item_validation == b.list_validation.first_item_validation
    &&& a.list_validation.parenthetical_context_check == b.list_validation.parenthetical_context_check
    &&& a.list_validation.sequential_numbering_check == b.list_validation.sequential_numbering_check
    &&& a.list_validation.mathematical_context_check == b.list_validation.mathematical_context_check
    &&& a.list_validation.hyphen_context_check == b.list_validation.hyphen_context_check
    &&& a.list_validation.sequential_numbering.allow_letter_sequences == b.list_validation.sequential_numbering.allow_letter_sequences
    &&& a.list_validation.sequential_numbering.max_gap_tolerance == b.list_validation.sequential_numbering.max_gap_tolerance
    &&& a.list_validation.hyphen_context.strategy == b.list_validation.hyphen_context.strategy
    &&& a.list_validation.hyphen_context.require_space_after == b.list_validation.hyphen_context.require_space_after
    &&& a.minimal_parse == b.minimal_parse
}

/// `a` and `b` agree in every leaf (texts by their characters).
pub open spec fn same_leaves(a: ParsingConfig, b: ParsingConfig) -> bool {
    &&& same_leaves_1(a, b)
    &&& same_leaves_2(a, b)
    &&& same_leaves_3(a, b)
    &&& same_leaves_4(a, b)
    &&& a.section_and_hierarchy.pattern_detection.patterns.deep_view() == b.section_and_hierarchy.pattern_detection.patterns.deep_view()
    &&& rules_view(a.pipeline.rules@) == rules_view(b.pipeline.rules@)
    &&& a.list_validation.mathematical_context.symbols.deep_view() == b.list_validation.mathematical_context.symbols.deep_view()
    &&& a.list_validation.mathematical_context.terms.deep_view() == b.list_validation.mathematical_context.terms.deep_view()
}

/// Every text and list of the configuration fits the byte form.
pub open spec fn config_fits(c: ParsingConfig) -> bool {
    &&& field_fits(Field::Texts(c.section_and_hierarchy.pattern_detection.patterns.deep_view()))
    &&& field_fits(Field::Rules(rules_view(c.pipeline.rules@)))
    &&& field_fits(Field::Texts(c.list_validation.mathematical_context.symbols.deep_view()))
    &&& field_fits(Field::Texts(c.list_validation.mathematical_context.terms.deep_view()))
}

proof fn lemma_pow256_8()
    ensures
        pow256(8) == 0x1_0000_0000_0000_0000,
{
    assert(pow256(0) == 1);
    assert(pow256(1) == 0x100);
    assert(pow256(2) == 0x1_0000);
    assert(pow256(3) == 0x100_0000);
    assert(pow256(4) == 0x1_0000_0000);
    assert(pow256(5) == 0x100_0000_0000);
    assert(pow256(6) == 0x1_0000_0000_0000);
    assert(pow256(7) == 0x100_0000_0000_0000);
}

#[verifier::rlimit(100)]
proof fn lemma_scalars_fit_1(c: ParsingConfig)
    ensures
        scalars_1(c).len() == 13,
        forall|i: int| 0 <= i < 13 ==> #[trigger] scalars_1(c)[i] < pow256(8),
{
    lemma_pow256_8();
    let v = scalars_1(c);
    assert forall|i: int| 0 <= i < 13 implies #[trigger] v[i] < pow256(8) by {
        if i == 0 {
            assert(v[0] == doc_tag(c.document_type));
        }
        else if i == 1 {
            assert(v[1] == c.section_and_hierarchy.large_header_threshold as nat);
        }
        else if i == 2 {
            assert(v[2] == c.section_and_hierarchy.medium_header_threshold as nat);
        }
        else if i == 3 {
            assert(v[3] == c.section_and_hierarchy.small_header_threshold as nat);
        }
        else if i == 4 {
            assert(v[4] == c.section_and_hierarchy.min_header_size as nat);
        }
        else if i == 5 {
            assert(v[5] == flag(c.section_and_hierarchy.use_bold_indicator));
        }
        else if i == 6 {
            assert(v[6] == flag(c.section_and_hierarchy.bold_size_strict));
        }
        else if i == 7 {
            assert(v[7] == c.section_and_hierarchy.max_depth as nat);
        }
        else if i == 8 {
            assert(v[8] == c.section_and_hierarchy.font_size_tolerance as nat);
        }
        else if i == 9 {
            assert(v[9] == flag(c.section_and_hierarchy.enforce_max_depth));
        }
        else if i == 10 {
            assert(v[10] == c.section_and_hierarchy.starting_section_level as nat);
        }
        else if i == 11 {
            assert(v[11] == flag(c.section_and_hierarchy.pattern_detection.enabled));
        }
        else if i == 12 {
            assert(v[12] == flag(c.section_and_hierarchy.pattern_detection.respect_font_constraints));
        }
    }
}

#[verifier::rlimit(100)]
proof fn lemma_leaves_1(a: ParsingConfig, b: ParsingConfig)
    requires
        scalars_1(a) == scalars_1(b),
    ensures
        same_leaves_1(a, b),
{
    assert(scalars_1(a)[0] == scalars_1(b)[0]);
    assert(scalars_1(a)[1] == scalars_1(b)[1]);
    assert(scalars_1(a)[2] == scalars_1(b)[2]);
    assert(scalars_1(a)[3] == scalars_1(b)[3]);
    assert(scalars_1(a)[4] == scalars_1(b)[4]);
    assert(scalars_1(a)[5] == scalars_1(b)[5]);
    assert(scalars_1(a)[6] == scalars_1(b)[6]);
    assert(scalars_1(a)[7] == scalars_1(b)[7]);
    assert(scalars_1(a)[8] == scalars_1(b)[8]);
    assert(scalars_1(a)[9] == scalars_1(b)[9]);
    assert(scalars_1(a)[10] == scalars_1(b)[10]);
    assert(scalars_1(a)[11] == scalars_1(b)[11]);
    assert(scalars_1(a)[12] == scalars_1(b)[12]);
}

#[verifier::rlimit(100)]
proof fn lemma_scalars_fit_2(c: ParsingConfig)
    ensures
        scalars_2(c).len() == 13,
        forall|i: int| 0 <= i < 13 ==> #[trigger] scalars_2(c)[i] < pow256(8),
{
    lemma_pow256_8();
    let v = scalars_2(c);
    assert forall|i: int| 0 <= i < 13 implies #[trigger] v[i] < pow256(8) by {
        if i == 0 {
            assert(v[0] == flag(c.spatial_clustering.enabled));
        }
        else if i == 1 {
            assert(v[1] == flag(c.spatial_clustering.enable_paragraph_merging));
        }
        else if i == 2 {
            assert(v[2] == flag(c.spatial_clustering.enable_spatial_adjacency));
        }
        else if i == 3 {
            assert(v[3] == c.spatial_clustering.min_line_height as nat);
        }
        else if i == 4 {
            assert(v[4] == c.spatial_clustering.vertical_gap_threshold_multiplier as nat);
        }
        else if i == 5 {
            assert(v[5] == c.spatial_clustering.horizontal_alignment_tolerance as nat);
        }
        else if i == 6 {
            assert(v[6] == c.spatial_clustering.line_grouping_tolerance as nat);
        }
        else if i == 7 {
            assert(v[7] == c.spatial_clustering.sections.min_segment_size as nat);
        }
        else if i == 8 {
            assert(v[8] == c.spatial_clustering.sections.max_segment_size as nat);
        }
        else if i == 9 {
            assert(v[9] == c.spatial_clustering.paragraphs.min_segment_size as nat);
        }
        else if i == 10 {
            assert(v[10] == c.spatial_clustering.paragraphs.max_segment_size as nat);
        }
        else if i == 11 {
            assert(v[11] == flag(c.include_raw_tika));
        }
        else if i == 12 {
            assert(v[12] == flag(c.list_validation.enabled));
        }
    }
}

#[verifier::rlimit(100)]
proof fn lemma_leaves_2(a: ParsingConfig, b: ParsingConfig)
    requires
        scalars_2(a) == scalars_2(b),
    ensures
        same_leaves_2(a, b),
{
    assert(scalars_2(a)[0] == scalars_2(b)[0]);
    assert(scalars_2(a)[1] == scalars_2(b)[1]);
    assert(scalars_2(a)[2] == scalars_2(b)[2]);
    assert(scalars_2(a)[3] == scalars_2(b)[3]);
    assert(scalars_2(a)[4] == scalars_2(b)[4]);
    assert(scalars_2(a)[5] == scalars_2(b)[5]);
    assert(scalars_2(a)[6] == scalars_2(b)[6]);
    assert(scalars_2(a)[7] == scalars_2(b)[7]);
    assert(scalars_2(a)[8] == scalars_2(b)[8]);
    assert(scalars_2(a)[9] == scalars_2(b)[9]);
    assert(scalars_2(a)[10] == scalars_2(b)[10]);
    assert(scalars_2(a)[11] == scalars_2(b)[11]);
    assert(scalars_2(a)[12] == scalars_2(b)[12]);
}

#[verifier::rlimit(100)]
proof fn lemma_scalars_fit_3(c: ParsingConfig)
    ensures
        scalars_3(c).len() == 11,
        forall|i: int| 0 <= i < 11 ==> #[trigger] scalars_3(c)[i] < pow256(8),
{
    lemma_pow256_8();
    let v = scalars_3(c);
    assert forall|i: int| 0 <= i < 11 implies #[trigger] v[i] < pow256(8) by {
        if i == 0 {
            assert(v[0] == flag(c.list_validation.minimum_size_check));
        }
        else if i == 1 {
            assert(v[1] == flag(c.list_validation.first_item_validation));
        }
        else if i == 2 {
            assert(v[2] == flag(c.list_validation.parenthetical_context_check));
        }
        else if i == 3 {
            assert(v[3] == flag(c.list_validation.sequential_numbering_check));
        }
        else if i == 4 {
            assert(v[4] == flag(c.list_validation.mathematical_context_check));
        }
        else if i == 5 {
            assert(v[5] == flag(c.list_validation.hyphen_context_check));
        }
        else if i == 6 {
            assert(v[6] == flag(c.list_validation.sequential_numbering.allow_letter_sequences));
        }
        else if i == 7 {
            assert(v[7] == c.list_validation.sequential_numbering.max_gap_tolerance as nat);
        }
        else if i == 8 {
            assert(v[8] == hyphen_tag(c.list_validation.hyphen_context.strategy));
        }
        else if i == 9 {
            assert(v[9] == flag(c.list_validation.hyphen_context.require_space_after));
        }
        else if i == 10 {
            assert(v[10] == flag(c.minimal_parse));
        }
    }
}

#[verifier::rlimit(100)]
proof fn lemma_leaves_3(a: ParsingConfig, b: ParsingConfig)
    requires
        scalars_3(a) == scalars_3(b),
    ensures
        same_leaves_3(a, b),
{
    assert(scalars_3(a)[0] == scalars_3(b)[0]);
    assert(scalars_3(a)[1] == scalars_3(b)[1]);
    assert(scalars_3(a)[2] == scalars_3(b)[2]);
    assert(scalars_3(a)[3] == scalars_3(b)[3]);
    assert(scalars_3(a)[4] == scalars_3(b)[4]);
    assert(scalars_3(a)[5] == scalars_3(b)[5]);
    assert(scalars_3(a)[6] == scalars_3(b)[6]);
    assert(scalars_3(a)[7] == scalars_3(b)[7]);
    assert(scalars_3(a)[8] == scalars_3(b)[8]);
    assert(scalars_3(a)[9] == scalars_3(b)[9]);
    assert(scalars_3(a)[10] == scalars_3(b)[10]);
}

#[verifier::rlimit(100)]
proof fn lemma_config_fields_fit(c: ParsingConfig)
    requires
        config_fits(c),
    ensures
        fields_of(c).len() == 5,
        forall|i: int| 0 <= i < 5 ==> field_fits(#[trigger] fields_of(c)[i]),
        scalars_1(c).len() == 13,
        scalars_2(c).len() == 13,
        scalars_3(c).len() == 11,
        scalars_4(c).len() == 3,
        scalars(c) == scalars_1(c) + scalars_2(c) + scalars_3(c) + scalars_4(c),
{
    lemma_pow256_8();
    lemma_scalars_fit_1(c);
    lemma_scalars_fit_2(c);
    lemma_scalars_fit_3(c);
    lemma_scalars_fit_4(c);
    let f = fields_of(c);
    let sc = scalars(c);
    assert(sc.len() == 40);
    assert forall|i: int| 0 <= i < sc.len() implies #[trigger] sc[i] < pow256(8) by {
        if i < 13 {
            assert(sc[i] == scalars_1(c)[i]);
        } else if i < 26 {
            assert(sc[i] == scalars_2(c)[i - 13]);
        } else if i < 37 {
            assert(sc[i] == scalars_3(c)[i - 26]);
        } else {
            assert(sc[i] == scalars_4(c)[i - 37]);
        }
    }
    assert(field_fits(f[0]) && field_fits(f[1]) && field_fits(f[2]) && field_fits(f[3]) && field_fits(f[4]));
}

/// Two configurations with the same byte form agree in every leaf: a
/// change of any leaf changes the bytes that the configuration hash
/// digests.
#[verifier::rlimit(100)]
pub proof fn lemma_config_bytes_injective(a: ParsingConfig, b: ParsingConfig)
    requires
        config_fits(a),
        config_fits(b),
        config_bytes_of(a) == config_bytes_of(b),
    ensures
        same_leaves(a, b),
{
    lemma_config_fields_fit(a);
    lemma_config_fields_fit(b);
    let fa = fields_of(a);
    let fb = fields_of(b);
    let sa = scalars(a);
    let sb = scalars(b);
    assert forall|i: int| 0 <= i < fa.len() implies same_kind(#[trigger] fa[i], fb[i]) by {}
    lemma_fields_injective(fa, fb);
    assert(fa[0] == fb[0]);
    assert(sa == sb);
    assert(sa.subrange(0, 13) =~= scalars_1(a));
    assert(sb.subrange(0, 13) =~= scalars_1(b));
    assert(sa.subrange(13, 26) =~= scalars_2(a));
    assert(sb.subrange(13, 26) =~= scalars_2(b));
    assert(sa.subrange(26, 37) =~= scalars_3(a));
    assert(sb.subrange(26, 37) =~= scalars_3(b));
    assert(sa.subrange(37, 40) =~= scalars_4(a));
    assert(sb.subrange(37, 40) =~= scalars_4(b));
    lemma_leaves_1(a, b);
    lemma_leaves_4(a, b);
    lemma_leaves_2(a, b);
    lemma_leaves_3(a, b);
    assert(fa[1] == fb[1] && fa[2] == fb[2] && fa[3] == fb[3] && fa[4] == fb[4]);
}

} // verus!
