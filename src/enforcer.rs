//! Size enforcement: an element whose text is longer than the limit is cut
//! into consecutive pieces, each breaking after the last whitespace or
//! punctuation past the middle of its window, with token counts and the box
//! shared out in proportion to the characters.
use vstd::prelude::*;
use vstd::arithmetic::div_mod::{lemma_div_is_ordered, lemma_div_multiples_vanish};
use vstd::arithmetic::mul::lemma_mul_inequality;
use vstd::string::StrSliceExecFns;
use crate::geometry::BoundingBox;
use crate::text::{is_white, is_white_char};
use crate::types::ParsedPdfElement;

verus! {

/// The axis along which a box is shared out.
#[derive(Debug, Clone, Copy, PartialEq, Eq, Structural)]
pub enum SplitDirection {
    /// Pieces stack top to bottom.
    Vertical,
    /// Pieces sit side by side.
    Horizontal,
}

/// Limits of the size enforcer. Sizes are counted in characters.
#[derive(Debug, Clone, Copy)]
pub struct SizeEnforcerConfig {
    pub enabled: bool,
    /// The largest piece, in characters; 0 sets no limit.
    pub max_size: usize,
    pub split_direction: SplitDirection,
}

impl Default for SizeEnforcerConfig {
    fn default() -> (r: Self)
        ensures
            r.max_size == 800,
            r.split_direction == SplitDirection::Vertical,
    {
        SizeEnforcerConfig { enabled: true, max_size: 800, split_direction: SplitDirection::Vertical }
    }
}

pub open spec fn is_ascii_punct(c: char) -> bool {
    ('!' <= c && c <= '/') || (':' <= c && c <= '@') || ('[' <= c && c <= '`') || ('{' <= c && c <= '~')
}

pub open spec fn is_break(c: char) -> bool {
    is_white(c) || is_ascii_punct(c)
}

/// The last index in `[lo, i)` holding a break character, or -1.
pub open spec fn scan_back(t: Seq<char>, lo: int, i: int) -> int
    decreases i - lo,
{
    if i <= lo {
        -1
    } else if is_break(t[i - 1]) {
        i - 1
    } else {
        scan_back(t, lo, i - 1)
    }
}

/// Where the piece that starts at `start` ends: `max` characters on, moved
/// back to just after the last break character past the middle of that
/// window; the end of the text if that comes first.
pub open spec fn next_end(t: Seq<char>, start: int, max: int) -> int {
    let end = start + max;
    if end >= t.len() {
        t.len() as int
    } else {
        let j = scan_back(t, start + max / 2, end);
        if j >= 0 {
            j + 1
        } else {
            end
        }
    }
}

/// `v` shared out over `len` characters, up to character `b` (rounded
/// toward zero).
pub open spec fn cut(v: int, b: int, len: int) -> int {
    if v >= 0 {
        (v * b) / len
    } else {
        -(((-v) * b) / len)
    }
}

/// The lengths of the first `i` pieces together.
pub open spec fn piece_start(r: Seq<ParsedPdfElement>, i: int) -> int
    decreases i,
{
    if i <= 0 {
        0
    } else {
        piece_start(r, i - 1) + r[i - 1].text@.len()
    }
}

/// `p` is the piece of `e` covering characters `[s, f)` of `len`.
pub open spec fn is_piece(e: ParsedPdfElement, s: int, f: int, len: int, dir: SplitDirection, p: ParsedPdfElement) -> bool {
    let b = e.bounding_box;
    &&& p.text@ == e.text@.subrange(s, f)
    &&& p.element_type == e.element_type
    &&& p.hierarchy_level == e.hierarchy_level
    &&& p.position == e.position
    &&& p.style_info == e.style_info
    &&& p.page_number == e.page_number
    &&& p.paragraph_number == e.paragraph_number
    &&& p.reading_order == e.reading_order
    &&& p.bookmark_match == e.bookmark_match
    &&& p.token_count == cut(e.token_count as int, f, len) - cut(e.token_count as int, s, len)
    &&& p.bounding_box == if dir == SplitDirection::Vertical {
        BoundingBox {
            x: b.x,
            y: (b.y + cut(b.height as int, s, len)) as i64,
            width: b.width,
            height: (cut(b.height as int, f, len) - cut(b.height as int, s, len)) as i64,
        }
    } else {
        BoundingBox {
            x: (b.x + cut(b.width as int, s, len)) as i64,
            y: b.y,
            width: (cut(b.width as int, f, len) - cut(b.width as int, s, len)) as i64,
            height: b.height,
        }
    }
}

/// What splitting `e` under `cfg` returns.
pub open spec fn split_post(e: ParsedPdfElement, cfg: SizeEnforcerConfig, r: Seq<ParsedPdfElement>) -> bool {
    let t = e.text@;
    let n = t.len() as int;
    if cfg.max_size == 0 || n <= cfg.max_size {
        r == seq![e]
    } else {
        &&& r.len() >= 1
        &&& piece_start(r, r.len() as int) == n
        &&& forall|i: int| 0 <= i < r.len() ==> piece_start(r, i + 1) == next_end(t, piece_start(r, i), cfg.max_size as int)
        &&& forall|i: int| 0 <= i < r.len() ==> is_piece(e, piece_start(r, i), piece_start(r, i + 1), n, cfg.split_direction, #[trigger] r[i])
    }
}

fn is_break_char(c: char) -> (r: bool)
    ensures
        r == is_break(c),
{
    is_white_char(c) || ('!' <= c && c <= '/') || (':' <= c && c <= '@') || ('[' <= c && c <= '`') || ('{' <= c && c <= '~')
}

proof fn lemma_cut_bounds(v: int, b: int, len: int)
    requires
        0 <= b <= len,
        len > 0,
    ensures
        v >= 0 ==> 0 <= cut(v, b, len) <= v,
        v < 0 ==> v <= cut(v, b, len) <= 0,
        cut(v, len, len) == v,
        cut(v, 0, len) == 0,
{
    let a = if v >= 0 { v } else { -v };
    lemma_mul_inequality(b, len, a);
    lemma_mul_inequality(0, b, a);
    assert(a * b <= len * a);
    lemma_div_is_ordered(a * b, len * a, len);
    lemma_div_multiples_vanish(a, len);
    lemma_div_is_ordered(0, a * b, len);
    assert(a * len == len * a) by (nonlinear_arith);
    assert(a * 0 == 0);
}

proof fn lemma_cut_mono(v: int, b1: int, b2: int, len: int)
    requires
        0 <= b1 <= b2 <= len,
        len > 0,
        v >= 0,
    ensures
        cut(v, b1, len) <= cut(v, b2, len),
{
    lemma_mul_inequality(b1, b2, v);
    assert(v * b1 == b1 * v && v * b2 == b2 * v) by (nonlinear_arith);
    lemma_div_is_ordered(v * b1, v * b2, len);
}

/// `v` shared out up to character `b` of `len`.
fn cut_exec(v: i64, b: usize, len: usize) -> (r: i64)
    requires
        b <= len,
        len > 0,
        -0x1_0000_0000_0000_0000 < v < 0x1_0000_0000_0000_0000,
    ensures
        r == cut(v as int, b as int, len as int),
{
    proof {
        lemma_cut_bounds(v as int, b as int, len as int);
    }
    let a: u128 = if v >= 0 { v as u128 } else { (0i128 - v as i128) as u128 };
    assert(a * (b as u128) <= 0xffff_ffff_ffff_ffff * 0xffff_ffff_ffff_ffff) by (nonlinear_arith)
        requires
            a <= 0x8000_0000_0000_0000,
            b <= 0xffff_ffff_ffff_ffff,
    ;
    let q = (a * (b as u128)) / (len as u128);
    if v >= 0 {
        q as i64
    } else {
        (0i128 - q as i128) as i64
    }
}

/// A token count shared out up to character `b` of `len`.
fn cut_tokens(v: usize, b: usize, len: usize) -> (r: usize)
    requires
        b <= len,
        len > 0,
    ensures
        r == cut(v as int, b as int, len as int),
{
    proof {
        lemma_cut_bounds(v as int, b as int, len as int);
    }
    let a = v as u128;
    assert(a * (b as u128) <= 0xffff_ffff_ffff_ffff * 0xffff_ffff_ffff_ffff) by (nonlinear_arith)
        requires
            a <= 0xffff_ffff_ffff_ffff,
            b <= 0xffff_ffff_ffff_ffff,
    ;
    ((a * (b as u128)) / (len as u128)) as usize
}

/// Where the piece starting at `start` ends.
fn piece_end(t: &str, n: usize, start: usize, max: usize) -> (r: usize)
    requires
        n == t@.len(),
        start < n,
        max >= 1,
    ensures
        r == next_end(t@, start as int, max as int),
        start < r <= n,
{
    if max >= n - start {
        return n;
    }
    let end = start + max;
    let lo = start + max / 2;
    let mut i: usize = end;
    while i > lo && !is_break_char(t.get_char(i - 1))
        invariant
            lo <= i <= end < n == t@.len(),
            scan_back(t@, lo as int, end as int) == scan_back(t@, lo as int, i as int),
        decreases i,
    {
        i = i - 1;
    }
    if i > lo {
        i
    } else {
        end
    }
}

/// Cuts an element whose text exceeds `cfg.max_size` characters into
/// consecutive pieces (see `next_end`); an element within the limit comes
/// back alone, unchanged. The pieces keep the element's kind, level, page
/// and style; their texts in order make up its text; token counts and the
/// box along the split direction are shared out in proportion to the
/// characters.
#[verifier::rlimit(100)]
pub fn split_element(e: &ParsedPdfElement, cfg: &SizeEnforcerConfig) -> (r: Vec<ParsedPdfElement>)
    requires
        e.bounding_box.wf(),
    ensures
        split_post(*e, *cfg, r@),
{
    let t = e.text.as_str();
    let n = t.unicode_len();
    if cfg.max_size == 0 || n <= cfg.max_size {
        let mut v: Vec<ParsedPdfElement> = Vec::new();
        v.push(e.copied());
        assert(v@ =~= seq![*e]);
        return v;
    }
    let ghost len = n as int;
    let b = e.bounding_box;
    let mut out: Vec<ParsedPdfElement> = Vec::new();
    let mut start: usize = 0;
    while start < n
        invariant
            n == e.text@.len(),
            len == n as int,
            t@ == e.text@,
            b == e.bounding_box,
            b.wf(),
            cfg.max_size >= 1,
            n > cfg.max_size,
            start <= n,
            piece_start(out@, out@.len() as int) == start,
            out@.len() == 0 ==> start == 0,
            forall|i: int| 0 <= i < out@.len() ==> piece_start(out@, i + 1) == next_end(e.text@, piece_start(out@, i), cfg.max_size as int),
            forall|i: int| 0 <= i < out@.len() ==> is_piece(*e, piece_start(out@, i), piece_start(out@, i + 1), len, cfg.split_direction, #[trigger] out@[i]),
        decreases n - start,
    {
        let end = piece_end(t, n, start, cfg.max_size);
        proof {
            lemma_cut_mono(e.token_count as int, start as int, end as int, len);
            lemma_cut_bounds(e.token_count as int, end as int, len);
        }
        let tk0 = cut_tokens(e.token_count, start, n);
        let tk1 = cut_tokens(e.token_count, end, n);
        let bx = match cfg.split_direction {
            SplitDirection::Vertical => {
                let c0 = cut_exec(b.height, start, n);
                let c1 = cut_exec(b.height, end, n);
                proof {
                    lemma_cut_bounds(b.height as int, start as int, len);
                    lemma_cut_bounds(b.height as int, end as int, len);
                }
                BoundingBox { x: b.x, y: b.y + c0, width: b.width, height: c1 - c0 }
            },
            SplitDirection::Horizontal => {
                let c0 = cut_exec(b.width, start, n);
                let c1 = cut_exec(b.width, end, n);
                proof {
                    lemma_cut_bounds(b.width as int, start as int, len);
                    lemma_cut_bounds(b.width as int, end as int, len);
                }
                BoundingBox { x: b.x + c0, y: b.y, width: c1 - c0, height: b.height }
            },
        };
        let mut p = e.copied();
        p.text = String::from_str(t.substring_char(start, end));
        p.token_count = tk1 - tk0;
        p.bounding_box = bx;
        let ghost prev = out@;
        out.push(p);
        proof {
            assert(piece_start(out@, out@.len() as int) == piece_start(out@, prev.len() as int) + (end - start));
            assert forall|i: int| 0 <= i <= prev.len() implies piece_start(out@, i) == piece_start(prev, i) by {
                lemma_piece_start_prefix(prev, out@, i);
            }
            assert forall|i: int| 0 <= i < out@.len() implies is_piece(*e, piece_start(out@, i), piece_start(out@, i + 1), len, cfg.split_direction, #[trigger] out@[i]) by {
                if i < prev.len() {
                    assert(out@[i] == prev[i]);
                    lemma_piece_start_prefix(prev, out@, i + 1);
                }
            }
            assert forall|i: int| 0 <= i < out@.len() implies piece_start(out@, i + 1) == next_end(e.text@, piece_start(out@, i), cfg.max_size as int) by {
                if i < prev.len() {
                    lemma_piece_start_prefix(prev, out@, i + 1);
                }
            }
        }
        start = end;
    }
    out
}

proof fn lemma_piece_start_prefix(a: Seq<ParsedPdfElement>, b: Seq<ParsedPdfElement>, i: int)
    requires
        0 <= i <= a.len(),
        a.len() <= b.len(),
        forall|k: int| 0 <= k < a.len() ==> a[k] == b[k],
    ensures
        piece_start(a, i) == piece_start(b, i),
    decreases i,
{
    if i > 0 {
        lemma_piece_start_prefix(a, b, i - 1);
    }
}

/// The token counts of the first `i` pieces together.
pub open spec fn pieces_tokens(r: Seq<ParsedPdfElement>, i: int) -> int
    decreases i,
{
    if i <= 0 {
        0
    } else {
        pieces_tokens(r, i - 1) + r[i - 1].token_count
    }
}

/// The texts of the first `i` pieces, one after the other.
pub open spec fn pieces_text(r: Seq<ParsedPdfElement>, i: int) -> Seq<char>
    decreases i,
{
    if i <= 0 {
        Seq::empty()
    } else {
        pieces_text(r, i - 1) + r[i - 1].text@
    }
}

/// Splitting loses and invents nothing: the pieces' texts in order make up
/// the element's text, and their token counts add up to its count.
pub proof fn lemma_split_preserves(e: ParsedPdfElement, cfg: SizeEnforcerConfig, r: Seq<ParsedPdfElement>)
    requires
        split_post(e, cfg, r),
    ensures
        pieces_text(r, r.len() as int) == e.text@,
        pieces_tokens(r, r.len() as int) == e.token_count,
{
    let n = e.text@.len() as int;
    if cfg.max_size == 0 || n <= cfg.max_size {
        assert(pieces_text(r, 1) =~= pieces_text(r, 0) + r[0].text@);
        assert(pieces_text(r, 0) =~= Seq::<char>::empty());
        assert(r[0] == e);
        assert(Seq::<char>::empty() + e.text@ =~= e.text@);
        assert(pieces_tokens(r, 1) == pieces_tokens(r, 0) + r[0].token_count);
    } else {
        lemma_split_prefix(e, cfg, r, r.len() as int);
        lemma_cut_bounds(e.token_count as int, n, n);
        assert(e.text@.subrange(0, n) =~= e.text@);
    }
}

#[verifier::rlimit(80)]
proof fn lemma_split_prefix(e: ParsedPdfElement, cfg: SizeEnforcerConfig, r: Seq<ParsedPdfElement>, i: int)
    requires
        split_post(e, cfg, r),
        !(cfg.max_size == 0 || e.text@.len() <= cfg.max_size),
        0 <= i <= r.len(),
    ensures
        0 <= piece_start(r, i) <= e.text@.len(),
        pieces_text(r, i) == e.text@.subrange(0, piece_start(r, i)),
        pieces_tokens(r, i) == cut(e.token_count as int, piece_start(r, i), e.text@.len() as int),
    decreases i,
{
    let n = e.text@.len() as int;
    if i == 0 {
        assert(pieces_text(r, 0) =~= e.text@.subrange(0, 0));
        lemma_cut_bounds(e.token_count as int, 0, n);
    } else {
        lemma_split_prefix(e, cfg, r, i - 1);
        let s0 = piece_start(r, i - 1);
        let s1 = piece_start(r, i);
        assert(is_piece(e, s0, s1, n, cfg.split_direction, r[i - 1]));
        assert(s1 == next_end(e.text@, s0, cfg.max_size as int));
        lemma_next_end_bounds(e.text@, s0, cfg.max_size as int);
        assert(pieces_text(r, i) == pieces_text(r, i - 1) + r[i - 1].text@);
        assert(r[i - 1].text@ == e.text@.subrange(s0, s1));
        assert(pieces_text(r, i) =~= e.text@.subrange(0, s1));
        assert(pieces_tokens(r, i) == pieces_tokens(r, i - 1) + r[i - 1].token_count);
    }
}

proof fn lemma_next_end_bounds(t: Seq<char>, start: int, max: int)
    requires
        0 <= start <= t.len(),
        max >= 1,
    ensures
        start <= next_end(t, start, max) <= t.len(),
{
    if start + max < t.len() {
        lemma_scan_back_bounds(t, start + max / 2, start + max);
    }
}

proof fn lemma_scan_back_bounds(t: Seq<char>, lo: int, i: int)
    ensures
        scan_back(t, lo, i) == -1 || lo <= scan_back(t, lo, i) < i,
    decreases i - lo,
{
    if i > lo && !is_break(t[i - 1]) {
        lemma_scan_back_bounds(t, lo, i - 1);
    }
}

} // verus!
