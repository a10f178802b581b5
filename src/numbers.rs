//! Reading the decimal numbers of the XHTML dialect: coordinates and font
//! sizes in thousandths, line and segment numbers as integers.
use vstd::prelude::*;
use vstd::string::StrSliceExecFns;
use crate::text::trim_spec;

verus! {

pub open spec fn is_digit(c: char) -> bool {
    '0' <= c && c <= '9'
}

pub open spec fn digit_val(c: char) -> int {
    (c as int) - ('0' as int)
}

pub open spec fn all_digits(s: Seq<char>) -> bool {
    forall|i: int| 0 <= i < s.len() ==> is_digit(#[trigger] s[i])
}

/// The value of a run of decimal digits.
pub open spec fn digits_value(s: Seq<char>) -> int
    decreases s.len(),
{
    if s.len() == 0 {
        0
    } else {
        digits_value(s.drop_last()) * 10 + digit_val(s.last())
    }
}

/// The index of the first `c` in `s`, or -1.
pub open spec fn index_of(s: Seq<char>, c: char) -> int
    decreases s.len(),
{
    if s.len() == 0 {
        -1
    } else if s[0] == c {
        0
    } else {
        let r = index_of(s.drop_first(), c);
        if r < 0 {
            -1
        } else {
            r + 1
        }
    }
}

pub proof fn lemma_index_of(s: Seq<char>, c: char)
    ensures
        -1 <= index_of(s, c) < s.len(),
        index_of(s, c) >= 0 ==> s[index_of(s, c)] == c,
        forall|k: int| 0 <= k < s.len() && (index_of(s, c) < 0 || k < index_of(s, c)) ==> #[trigger] s[k] != c,
    decreases s.len(),
{
    if s.len() > 0 {
        lemma_index_of(s.drop_first(), c);
        assert forall|k: int| 0 <= k < s.len() && (index_of(s, c) < 0 || k < index_of(s, c)) implies #[trigger] s[k] != c by {
            if k > 0 {
                assert(s[k] == s.drop_first()[k - 1]);
            }
        }
    }
}

/// The digit at place `i` of a fraction, 0 past its end.
pub open spec fn frac_digit(f: Seq<char>, i: int) -> int {
    if i < f.len() {
        digit_val(f[i])
    } else {
        0
    }
}

/// A decimal `[+|-][digits][.digits]` (with a digit on at least one side of
/// the point) in thousandths; further fraction digits are dropped, and at
/// most nine integer digits are read. Exponent forms are not part of the
/// dialect.
pub open spec fn parse_milli(s: Seq<char>) -> Option<int> {
    let signed = s.len() > 0 && (s[0] == '-' || s[0] == '+');
    let neg = s.len() > 0 && s[0] == '-';
    let body = if signed { s.drop_first() } else { s };
    let d = index_of(body, '.');
    let ip = if d < 0 { body } else { body.take(d) };
    let fp = if d < 0 { Seq::<char>::empty() } else { body.skip(d + 1) };
    if (ip.len() == 0 && fp.len() == 0) || ip.len() > 9 || !all_digits(ip) || !all_digits(fp) {
        None
    } else {
        let v = digits_value(ip) * 1000 + 100 * frac_digit(fp, 0) + 10 * frac_digit(fp, 1) + frac_digit(fp, 2);
        Some(if neg { -v } else { v })
    }
}

proof fn lemma_digits_bound(s: Seq<char>)
    requires
        all_digits(s),
    ensures
        0 <= digits_value(s) < pow10(s.len()),
    decreases s.len(),
{
    if s.len() > 0 {
        assert(all_digits(s.drop_last())) by {
            assert forall|i: int| 0 <= i < s.drop_last().len() implies is_digit(#[trigger] s.drop_last()[i]) by {
                assert(s.drop_last()[i] == s[i]);
            }
        }
        lemma_digits_bound(s.drop_last());
        assert(is_digit(s[s.len() - 1]));
    }
}

pub open spec fn pow10(n: nat) -> int
    decreases n,
{
    if n == 0 {
        1
    } else {
        10 * pow10((n - 1) as nat)
    }
}

/// Reads a run of at most `max` digits.
fn digits_of(s: &str, start: usize, end: usize) -> (r: Option<u64>)
    requires
        start <= end <= s@.len(),
        end - start <= 18,
    ensures
        all_digits(s@.subrange(start as int, end as int)) ==> r == Some(digits_value(s@.subrange(start as int, end as int)) as u64),
        !all_digits(s@.subrange(start as int, end as int)) ==> r is None,
{
    let mut v: u64 = 0;
    let mut i: usize = start;
    while i < end
        invariant
            start <= i <= end <= s@.len(),
            end - start <= 18,
            all_digits(s@.subrange(start as int, i as int)),
            v == digits_value(s@.subrange(start as int, i as int)),
            v < pow10((i - start) as nat),
        decreases end - i,
    {
        let c = s.get_char(i);
        if !('0' <= c && c <= '9') {
            assert(s@.subrange(start as int, end as int)[i - start] == c);
            return None;
        }
        let ghost sub = s@.subrange(start as int, i + 1);
        assert(sub.drop_last() =~= s@.subrange(start as int, i as int));
        proof {
            lemma_pow10_bound((i - start) as nat);
        }
        v = v * 10 + ((c as u32) - ('0' as u32)) as u64;
        assert(all_digits(sub)) by {
            assert forall|k: int| 0 <= k < sub.len() implies is_digit(#[trigger] sub[k]) by {
                if k < sub.len() - 1 {
                    assert(sub[k] == s@.subrange(start as int, i as int)[k]);
                }
            }
        }
        i = i + 1;
    }
    Some(v)
}

proof fn lemma_pow10_pos(n: nat)
    ensures
        pow10(n) >= 1,
    decreases n,
{
    if n > 0 {
        lemma_pow10_pos((n - 1) as nat);
    }
}

proof fn lemma_pow10_bound(n: nat)
    requires
        n <= 17,
    ensures
        pow10(n) <= 100_000_000_000_000_000,
        pow10(n) >= 1,
        pow10(9) == 1_000_000_000,
{
    assert(pow10(0) == 1);
    assert(pow10(1) == 10);
    assert(pow10(2) == 100);
    assert(pow10(3) == 1000);
    assert(pow10(4) == 10000);
    assert(pow10(5) == 100000);
    assert(pow10(6) == 1000000);
    assert(pow10(7) == 10000000);
    assert(pow10(8) == 100000000);
    assert(pow10(9) == 1000000000);
    assert(pow10(10) == 10000000000);
    assert(pow10(11) == 100000000000);
    assert(pow10(12) == 1000000000000);
    assert(pow10(13) == 10000000000000);
    assert(pow10(14) == 100000000000000);
    assert(pow10(15) == 1000000000000000);
    assert(pow10(16) == 10000000000000000);
    assert(pow10(17) == 100000000000000000);
    lemma_pow10_mono(n, 17);
    lemma_pow10_pos(n);
}

/// Reads `[-]digits[.digits]` in thousandths.
#[verifier::loop_isolation(false)]
#[verifier::rlimit(80)]
pub fn parse_number_milli(s: &str) -> (r: Option<i64>)
    ensures
        r matches Some(v) ==> parse_milli(s@) == Some(v as int),
        r is None ==> parse_milli(s@) is None,
{
    let n = s.unicode_len();
    let neg = n > 0 && s.get_char(0) == '-';
    let signed = n > 0 && (s.get_char(0) == '-' || s.get_char(0) == '+');
    let start: usize = if signed { 1 } else { 0 };
    let ghost body = if signed { s@.drop_first() } else { s@ };
    assert(body =~= s@.subrange(start as int, n as int));
    let mut d: usize = start;
    while d < n && s.get_char(d) != '.'
        invariant
            start <= d <= n == s@.len(),
            forall|k: int| start <= k < d ==> s@[k] != '.',
        decreases n - d,
    {
        d = d + 1;
    }
    proof {
        lemma_index_of(body, '.');
        if d < n {
            assert(body[d - start] == '.');
            assert forall|k: int| 0 <= k < d - start implies body[k] != '.' by {
                assert(body[k] == s@[k + start]);
            }
            if index_of(body, '.') >= 0 && index_of(body, '.') < d - start {
                assert(body[index_of(body, '.')] == s@[index_of(body, '.') + start]);
            }
            assert(index_of(body, '.') == d - start);
        } else {
            if index_of(body, '.') >= 0 {
                assert(body[index_of(body, '.')] == s@[index_of(body, '.') + start]);
            }
            assert(index_of(body, '.') < 0);
        }
    }
    let ip_len = d - start;
    if ip_len > 9 || (ip_len == 0 && (d == n || d + 1 == n)) {
        proof {
            if ip_len == 0 && d + 1 == n {
                assert(body.skip(d - start + 1).len() == 0);
            }
        }
        return None;
    }
    let ghost ip = if d < n { body.take(d - start) } else { body };
    assert(ip =~= s@.subrange(start as int, d as int));
    let iv = match digits_of(s, start, d) {
        Some(v) => v,
        None => {
            return None;
        },
    };
    proof {
        lemma_digits_bound(ip);
        lemma_pow10_bound(9);
        lemma_pow10_mono(ip.len(), 9);
    }
    let mut frac: u64 = 0;
    if d < n {
        let ghost fp = body.skip(d - start + 1);
        assert(fp =~= s@.subrange(d + 1, n as int));
        let mut k: usize = d + 1;
        while k < n
            invariant
                d < n == s@.len(),
                d + 1 <= k <= n,
                fp == s@.subrange(d + 1, n as int),
                forall|j: int| d + 1 <= j < k ==> is_digit(#[trigger] s@[j]),
            decreases n - k,
        {
            let c = s.get_char(k);
            if !('0' <= c && c <= '9') {
                assert(fp[k - d - 1] == s@[k as int]);
                assert(!all_digits(fp));
                assert(index_of(body, '.') == d - start);
                assert(body.skip(index_of(body, '.') + 1) == fp);
                assert(parse_milli(s@) is None);
                return None;
            }
            k = k + 1;
        }
        assert(all_digits(fp)) by {
            assert forall|j: int| 0 <= j < fp.len() implies is_digit(#[trigger] fp[j]) by {
                assert(fp[j] == s@[j + d + 1]);
            }
        }
        let f0: u64 = if d + 1 < n { ((s.get_char(d + 1) as u32) - ('0' as u32)) as u64 } else { 0 };
        proof {
            if d + 1 < n {
                assert(fp[0] == s@[d + 1]);
            }
        }
        let f1: u64 = if d + 2 < n { ((s.get_char(d + 2) as u32) - ('0' as u32)) as u64 } else { 0 };
        proof {
            if d + 2 < n {
                assert(fp[1] == s@[d + 2]);
            }
        }
        let f2: u64 = if d + 3 < n { ((s.get_char(d + 3) as u32) - ('0' as u32)) as u64 } else { 0 };
        proof {
            if d + 3 < n {
                assert(fp[2] == s@[d + 3]);
            }
        }
        frac = 100 * f0 + 10 * f1 + f2;
        assert(frac == 100 * frac_digit(fp, 0) + 10 * frac_digit(fp, 1) + frac_digit(fp, 2));
    } else {
        assert(all_digits(Seq::<char>::empty()));
    }
    assert(iv < 1_000_000_000);
    assert(frac <= 999);
    let v = (iv * 1000 + frac) as i64;
    if neg {
        Some(-v)
    } else {
        Some(v)
    }
}

proof fn lemma_pow10_mono(a: nat, b: nat)
    requires
        a <= b,
    ensures
        pow10(a) <= pow10(b),
    decreases b,
{
    if a < b {
        lemma_pow10_mono(a, (b - 1) as nat);
        lemma_pow10_pos((b - 1) as nat);
    }
}

/// A run of decimal digits that fits in `u32`.
pub open spec fn parse_uint(s: Seq<char>) -> Option<u32> {
    if s.len() == 0 || s.len() > 9 || !all_digits(s) {
        None
    } else {
        Some(digits_value(s) as u32)
    }
}

/// Reads a run of at most nine decimal digits.
pub fn parse_u32(s: &str) -> (r: Option<u32>)
    ensures
        r == parse_uint(s@),
{
    let n = s.unicode_len();
    if n == 0 || n > 9 {
        return None;
    }
    assert(s@.subrange(0, n as int) =~= s@);
    match digits_of(s, 0, n) {
        Some(v) => {
            proof {
                lemma_digits_bound(s@);
                lemma_pow10_bound(9);
                lemma_pow10_mono(n as nat, 9);
            }
            Some(v as u32)
        },
        None => None,
    }
}

/// At most nine digits are worth less than 10^9.
pub proof fn lemma_digits_range(s: Seq<char>)
    requires
        all_digits(s),
        s.len() <= 9,
    ensures
        0 <= digits_value(s) < 1_000_000_000,
{
    lemma_digits_bound(s);
    lemma_pow10_bound(9);
    lemma_pow10_mono(s.len(), 9);
}

} // verus!
